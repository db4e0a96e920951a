use photo_backup::batch::{BatchJob, Job};
use photo_backup::bus::{Commands, ConnectionStatus, UiState};
use photo_backup::client::ClientSession;
use photo_backup::config::ClientConfig;
use photo_backup::discovery::{visit, DirEntry};
use photo_backup::header::Timestamp;
use photo_backup::listener::{
    header_for, wants_upload, FileEvent, StabilityDetector, Verdict, DEFAULT_STABILITY_CHECKS,
};
use photo_backup::loader::{BatchLoader, BatchLoaderCallback, LoaderStep};
use photo_backup::message::{read_request, read_response, send_request, send_response};
use photo_backup::protocol::{RequestTypes, ResponseCodes};
use photo_backup::server::{
    batch_ack, batch_processor_ended, batch_processor_started, create_repo, destination,
    get_repo_tree, get_repos, listener_address, parse_tree_request, processor_greeting,
    record_upload, remove_repository, repo_directory, requested_name, set_storage_path,
    tree_file, PhotoServer, ServerConfig,
};
use photo_backup::session::{SessionAction, SessionEvent};
use photo_backup::tree::Tree;

// A server whose disk is kept in memory.
struct Server {
    greeter: PhotoServer,
    config: ServerConfig,
    directories: Vec<String>,
    trees: Vec<Tree>,
    files: Vec<(String, Vec<u8>)>,
}

impl Server {
    fn new() -> Server {
        Server {
            greeter: PhotoServer::new("host".to_string(), "127.0.0.1:8080".to_string()),
            config: ServerConfig::default(),
            directories: vec!["/tmp/srv".to_string()],
            trees: Vec::new(),
            files: Vec::new(),
        }
    }

    fn tree(&self, name: &str) -> Tree {
        match self.trees.iter().find(|t| t.name() == name) {
            Some(tree) => tree.duplicate(),
            None => Tree::load(name.to_string(), tree_file(name), None),
        }
    }

    fn keep(&mut self, tree: Tree) {
        self.trees.retain(|t| t.name() != tree.name());
        self.trees.push(tree);
    }

    // One request frame in, one response frame out.
    fn answer(&mut self, frame: &[u8]) -> Vec<u8> {
        let (request, used) = read_request(frame).expect("a request");
        assert_eq!(used, frame.len());
        let response = match request.request_type {
            RequestTypes::SetStoragePath => {
                let path = requested_name(&request.body);
                let exists = self.directories.contains(&path);
                set_storage_path(&mut self.config, path, exists)
            }
            RequestTypes::GetRepos => get_repos(&self.config),
            RequestTypes::CreateRepo => {
                let name = requested_name(&request.body);
                let directory = repo_directory(&self.config, &name);
                let exists = self.directories.contains(&directory);
                if !exists {
                    self.directories.push(directory);
                }
                let (response, tree) = create_repo(&mut self.config, name, exists, None);
                if let Some(tree) = tree {
                    self.keep(tree);
                }
                response
            }
            RequestTypes::RemoveRepository => {
                let name = requested_name(&request.body);
                let (response, removal) = remove_repository(&mut self.config, &name);
                self.directories.retain(|d| d != &removal.directory);
                self.trees.retain(|t| t.path() != &removal.tree_file);
                response
            }
            RequestTypes::GetRepoTree => {
                let asked = parse_tree_request(&request.body).expect("an object");
                get_repo_tree(&self.tree(&asked.repo_name), asked.version)
            }
            RequestTypes::StartBatchProcessor => {
                batch_processor_started(Some(listener_address(4000).as_str()))
            }
            RequestTypes::EndBatchProcessor => batch_processor_ended(true),
        };
        send_response(&response).expect("writable")
    }

    // One batch frame in, one response frame out.
    fn store(&mut self, wire: &[u8]) -> Vec<u8> {
        let (batch, used) = BatchJob::decode(wire).expect("a whole batch");
        assert_eq!(used, wire.len());
        for job in &batch.jobs {
            let header = &job.file_header;
            let path = destination(&self.config.storage_directory, header);
            self.files.push((path, job.data.clone()));
            let mut tree = self.tree(&header.repo_name);
            let storage = self.config.storage_directory.clone();
            record_upload(&mut tree, &storage, header).expect("room in the history");
            self.keep(tree);
        }
        send_response(&batch_ack(batch.len())).expect("writable")
    }
}

// A client whose host does what the session asks, against the server above.
struct Client {
    session: ClientSession,
    loader: BatchLoader,
    told: Vec<Commands>,
    done: Vec<String>,
}

impl Client {
    fn new(storage: &str) -> Client {
        let config = ClientConfig {
            server_address: "127.0.0.1:8080".to_string(),
            server_storage_directory: storage.to_string(),
            repo_config: Vec::new(),
        };
        Client {
            session: ClientSession::new(config),
            loader: BatchLoader::new(1024 * 1024),
            told: Vec::new(),
            done: Vec::new(),
        }
    }

    fn perform(&mut self, actions: Vec<SessionAction>, server: &mut Server) {
        for action in actions {
            let more = match action {
                SessionAction::Tell(command) => {
                    self.told.push(command);
                    Vec::new()
                }
                SessionAction::Ask(asked, request) => {
                    let frame = send_request(&request).expect("writable");
                    let (response, _) = read_response(&server.answer(&frame)).expect("a response");
                    self.session.on_answer(asked, &response)
                }
                SessionAction::OpenFileChannel(address) => {
                    self.done.push(format!("open {}", address));
                    let greeting = processor_greeting("127.0.0.1:50000");
                    self.session.on_file_channel(&greeting)
                }
                SessionAction::LoadTree(name) => {
                    let tree = Tree::load(name.clone(), tree_file(&name), None);
                    self.session.keep_tree(tree);
                    Vec::new()
                }
                SessionAction::SaveConfig => self.note("save config"),
                SessionAction::SaveTree(name) => self.note(&format!("save tree {}", name)),
                SessionAction::DeleteTreeFile(path) => self.note(&format!("delete {}", path)),
                SessionAction::StartListener { repo, watch_directory, .. } => {
                    self.note(&format!("listen {} {}", repo, watch_directory))
                }
                SessionAction::StopListener(name) => self.note(&format!("stop {}", name)),
                SessionAction::Scan { repo, watch_directory } => {
                    self.note(&format!("scan {} {}", repo, watch_directory))
                }
                SessionAction::CloseChannels => self.note("close"),
                SessionAction::Abort => panic!("the session gave up"),
            };
            self.perform(more, server);
        }
    }

    fn note(&mut self, what: &str) -> Vec<SessionAction> {
        self.done.push(what.to_string());
        Vec::new()
    }

    fn connect(&mut self, server: &mut Server) {
        assert!(self.session.step(SessionEvent::ConnectRequested));
        let frame = send_response(&server.greeter.greeting()).expect("writable");
        let (greeting, _) = read_response(&frame).expect("a response");
        let actions = self.session.on_greeting(&greeting);
        self.perform(actions, server);
    }

    fn command(&mut self, command: Commands, server: &mut Server) {
        let actions = self.session.on_command(command);
        self.perform(actions, server);
    }

    // Sends one batch through the loader and returns what the loader reports.
    fn upload(&mut self, batch: BatchJob, server: &mut Server) -> BatchLoaderCallback {
        let frame = match self.loader.next(&batch) {
            LoaderStep::Write(frame) => frame,
            _ => panic!("the loader writes"),
        };
        let (response, _) = read_response(&server.store(&frame)).expect("a response");
        let (message, callback) = self.loader.on_response(&response);
        self.told.push(message);
        callback
    }

    fn notifications(&self) -> Vec<String> {
        self.told
            .iter()
            .filter_map(|c| match c {
                Commands::Notify(text) => Some(text.clone()),
                _ => None,
            })
            .collect()
    }
}

fn names(list: &[&str]) -> Vec<String> {
    list.iter().map(|n| n.to_string()).collect()
}

// What the listener does with a new file: it waits until the size has
// stopped changing, then queues the file as a batch of one job.
fn settled_upload(repo: &str, root: &str, path: &str, data: &[u8]) -> BatchJob {
    assert!(wants_upload(FileEvent::Created, path, false));
    let mut detector = StabilityDetector::new(DEFAULT_STABILITY_CHECKS);
    let mut reads = 0;
    while detector.observe(Some(data.len() as u64)) != Verdict::Stable {
        reads += 1;
    }
    assert_eq!(reads, 9);
    let created = Timestamp { secs: 1_700_000_000, nanos: 0 };
    let header = header_for(repo, root, path, data.len() as u64, created).expect("under the root");
    BatchJob::single(header, data.to_vec())
}

#[test]
fn happy_create_and_upload_end_to_end() {
    let mut server = Server::new();
    let mut client = Client::new("");
    client.connect(&mut server);
    assert_eq!(client.session.status, ConnectionStatus::Connected);
    assert!(client.session.loader_ready);
    assert_eq!(client.done, names(&["open 0.0.0.0:4000"]));

    client.session.config.server_storage_directory = "/tmp/srv".to_string();
    client.command(Commands::SetStoragePath("/tmp/srv".to_string()), &mut server);
    assert_eq!(server.config.storage_directory, "/tmp/srv");

    client.command(Commands::CreateRepo("alpha".to_string()), &mut server);
    assert!(server.directories.contains(&"/tmp/srv/alpha".to_string()));
    assert_eq!(server.config.repo_list, names(&["alpha"]));
    let tree = server.tree("alpha");
    assert_eq!(tree.path(), "trees/alpha.tree");
    assert_eq!(tree.version(), 0);
    assert_eq!(client.session.tree("alpha").expect("a tree").version(), 0);

    client.command(
        Commands::StartEventListener("alpha".to_string(), "/tmp/cli/alpha".to_string()),
        &mut server,
    );
    assert_eq!(client.done.last().map(String::as_str), Some("listen alpha /tmp/cli/alpha"));

    let batch = settled_upload("alpha", "/tmp/cli/alpha", "/tmp/cli/alpha/photo1.jpg", b"AAAA");
    assert_eq!(batch.len(), 1);
    assert_eq!(client.upload(batch, &mut server), BatchLoaderCallback::Done);
    assert_eq!(server.files, vec![("/tmp/srv/alpha/photo1.jpg".to_string(), b"AAAA".to_vec())]);
    let tree = server.tree("alpha");
    assert_eq!(tree.version(), 1);
    assert_eq!(tree.history_entries(), names(&["+/tmp/srv/alpha/photo1.jpg"]));
    assert_eq!(client.notifications().last().map(String::as_str), Some("received 1 file(s)"));

    // The client, which holds nothing of the tree yet, catches up.
    client.command(Commands::GetRepoTree("alpha".to_string()), &mut server);
    let held = client.session.tree("alpha").expect("a tree");
    assert_eq!(held.version(), 1);
    assert_eq!(held.children("alpha"), Some(names(&["photo1.jpg"])));
}

#[test]
fn duplicate_create_end_to_end() {
    let mut server = Server::new();
    let mut client = Client::new("/tmp/srv");
    client.connect(&mut server);
    client.command(Commands::SetStoragePath("/tmp/srv".to_string()), &mut server);
    client.command(Commands::CreateRepo("alpha".to_string()), &mut server);
    let batch = settled_upload("alpha", "/w", "/w/a.jpg", b"A");
    client.upload(batch, &mut server);
    let directories = server.directories.clone();
    let repos = server.config.repo_list.clone();
    let history = server.tree("alpha").history_entries();

    client.told.clear();
    client.command(Commands::CreateRepo("alpha".to_string()), &mut server);
    assert_eq!(
        client.notifications(),
        names(&["A repo with the same name already exists"])
    );
    assert!(client.told.iter().any(|c| matches!(
        c,
        Commands::Log(line) if line.starts_with(ResponseCodes::Duplicate.label())
    )));
    // Nothing changed on the server.
    assert_eq!(server.directories, directories);
    assert_eq!(server.config.repo_list, repos);
    assert_eq!(server.tree("alpha").history_entries(), history);
}

#[test]
fn discovery_end_to_end() {
    let mut server = Server::new();
    let mut client = Client::new("/tmp/srv");
    client.connect(&mut server);
    client.command(Commands::SetStoragePath("/tmp/srv".to_string()), &mut server);
    client.command(Commands::CreateRepo("beta".to_string()), &mut server);
    client.upload(settled_upload("beta", "/cli/beta", "/cli/beta/x.jpg", b"x"), &mut server);
    assert_eq!(server.tree("beta").children("beta"), Some(names(&["x.jpg"])));

    // The scan works on a scratch copy of the tree as the server has it.
    let mut scratch = server.tree("beta");
    let top = visit(
        &mut scratch,
        "beta",
        &vec![
            DirEntry { name: "x.jpg".to_string(), is_dir: false },
            DirEntry { name: "y.jpg".to_string(), is_dir: false },
            DirEntry { name: "sub".to_string(), is_dir: true },
        ],
    );
    let below = visit(&mut scratch, "sub", &vec![DirEntry { name: "z.jpg".to_string(), is_dir: false }]);
    let mut jobs: Vec<Job> = Vec::new();
    for name in &top.untracked {
        let path = format!("/cli/beta/{}", name);
        let created = Timestamp { secs: 0, nanos: 0 };
        let header = header_for("beta", "/cli/beta", &path, 1, created).expect("under the root");
        jobs.push(Job { file_header: header, data: vec![b'y'] });
    }
    for name in &below.untracked {
        let path = format!("/cli/beta/sub/{}", name);
        let created = Timestamp { secs: 0, nanos: 0 };
        let header = header_for("beta", "/cli/beta", &path, 1, created).expect("under the root");
        jobs.push(Job { file_header: header, data: vec![b'z'] });
    }
    let sent: Vec<String> = jobs.iter().map(|j| j.file_header.file_name.clone()).collect();
    assert_eq!(sent, names(&["y.jpg", "sub/z.jpg"]));

    // One batch, one acknowledgement.
    assert_eq!(client.upload(BatchJob::new(jobs), &mut server), BatchLoaderCallback::Done);
    assert_eq!(client.notifications().last().map(String::as_str), Some("received 2 file(s)"));
    let tree = server.tree("beta");
    assert_eq!(tree.children("beta"), Some(names(&["x.jpg", "y.jpg", "sub"])));
    assert_eq!(tree.children("sub"), Some(names(&["z.jpg"])));

    // A client that holds nothing of the tree yet gets every entry.
    client.command(Commands::GetRepoTree("beta".to_string()), &mut server);
    let held = client.session.tree("beta").expect("a tree");
    assert_eq!(held.version(), 3);
    assert_eq!(held.children("beta"), Some(names(&["x.jpg", "y.jpg", "sub"])));
    assert_eq!(held.children("sub"), Some(names(&["z.jpg"])));

    // The interface shows the tree that was posted.
    let mut interface = UiState::default();
    let posted = client.told.pop().expect("a posted tree");
    assert!(matches!(&posted, Commands::PostRepoTree(_, name) if name == "beta"));
    interface.apply(posted);
    interface.apply(Commands::GetSubDir("beta".to_string()));
    let listing: Vec<(String, bool)> = interface
        .subdir_contents
        .expect("a listing")
        .into_iter()
        .map(|l| (l.name, l.is_directory))
        .collect();
    assert_eq!(
        listing,
        vec![("x.jpg".to_string(), false), ("y.jpg".to_string(), false), ("sub".to_string(), true)]
    );
}

#[test]
fn graceful_disconnect_end_to_end() {
    let mut server = Server::new();
    let mut client = Client::new("/tmp/srv");
    client.connect(&mut server);
    client.command(Commands::SetStoragePath("/tmp/srv".to_string()), &mut server);
    client.command(Commands::CreateRepo("alpha".to_string()), &mut server);
    client.command(
        Commands::StartEventListener("alpha".to_string(), "/tmp/cli/alpha".to_string()),
        &mut server,
    );
    let batch = settled_upload("alpha", "/tmp/cli/alpha", "/tmp/cli/alpha/a.jpg", b"AAAA");
    let frame = batch.encode(1024 * 1024).expect("writable");
    let mut wire: Vec<u8> = Vec::new();
    wire.extend_from_slice(&frame);
    client.upload(batch, &mut server);

    client.told.clear();
    client.done.clear();
    client.command(Commands::DisconnectStream("alpha".to_string()), &mut server);
    assert_eq!(client.done, names(&["stop alpha"]));
    assert!(client.told.iter().any(|c| matches!(
        c,
        Commands::UpdateRepoStatus((name, ConnectionStatus::Disconnected)) if name == "alpha"
    )));
    assert!(client.session.listeners.is_empty());
    // The session stays connected, and nothing went on the wire since:
    // what is there is the one whole frame.
    assert_eq!(client.session.status, ConnectionStatus::Connected);
    let (read, used) = BatchJob::decode(&wire).expect("a whole frame");
    assert_eq!(used, wire.len());
    assert_eq!(read.len(), 1);
    let mut interface = UiState::default();
    for command in client.told.drain(..) {
        interface.apply(command);
    }
    assert_eq!(
        interface.repo_status,
        vec![("alpha".to_string(), ConnectionStatus::Disconnected)]
    );
}

#[test]
fn removing_a_repository_end_to_end() {
    let mut server = Server::new();
    let mut client = Client::new("/tmp/srv");
    client.connect(&mut server);
    client.command(Commands::SetStoragePath("/tmp/srv".to_string()), &mut server);
    client.command(Commands::CreateRepo("  alpha\n".to_string()), &mut server);
    assert_eq!(server.config.repo_list, names(&["alpha"]));
    client.command(Commands::CreateRepo("beta".to_string()), &mut server);
    client.done.clear();
    client.command(Commands::RemoveRepository("beta".to_string()), &mut server);
    assert_eq!(server.config.repo_list, names(&["alpha"]));
    assert!(!server.directories.contains(&"/tmp/srv/beta".to_string()));
    assert!(client.session.tree("beta").is_none());
    assert_eq!(client.done, names(&["delete trees/beta.tree", "save config"]));
    assert!(client.session.config.repo("beta").is_none());
}

//! What the server decides: how it answers each request of the control
//! channel, given what its host told it, and what it keeps of each file
//! that a batch brings.

use vstd::prelude::*;
use crate::header::FileHeader;
use crate::json::{
    json_number_field, json_of_names, json_of_updates, json_text_field, names_to_json, number_field,
    text_field, updates_to_json,
};
use crate::path::{joined, views};
use crate::protocol::{text_response, Response, ResponseCodes, ResponseView};
use crate::text::{
    concat, decimal, decimal_text, lossy_text, sanitize, sanitized, same_text, utf8_lossy,
};
use crate::tree::{entries_from, first_update, lists, updates_view, with_entry, Tree};

verus! {

/// What the server remembers between runs.
pub struct ServerConfig {
    pub storage_directory: String,
    pub repo_list: Vec<String>,
    pub config_path: String,
}

/// A server: its name and the address it listens on.
pub struct PhotoServer {
    pub name: String,
    pub address: String,
}

/// `names` without `name`, order kept.
pub open spec fn without(names: Seq<Seq<char>>, name: Seq<char>) -> Seq<Seq<char>> {
    names.filter(|n: Seq<char>| n != name)
}

impl Default for ServerConfig {
    fn default() -> (config: ServerConfig)
        ensures
            config.storage_directory@ == Seq::<char>::empty(),
            config.repo_list@ == Seq::<String>::empty(),
            config.config_path@ == Seq::<char>::empty(),
    {
        ServerConfig {
            storage_directory: String::new(),
            repo_list: Vec::new(),
            config_path: String::new(),
        }
    }
}

impl ServerConfig {
    /// Registers `repo` unless it is registered. Returns whether the list
    /// changed, in which case the configuration is to be saved.
    pub fn add_repo(&mut self, repo: String) -> (added: bool)
        ensures
            added == !views(old(self).repo_list@).contains(repo@),
            views(final(self).repo_list@) == if added {
                views(old(self).repo_list@).push(repo@)
            } else {
                views(old(self).repo_list@)
            },
            final(self).storage_directory == old(self).storage_directory,
            final(self).config_path == old(self).config_path,
    {
        if lists(&self.repo_list, repo.as_str()) {
            false
        } else {
            self.repo_list.push(repo);
            proof {
                assert(views(final(self).repo_list@) =~= views(old(self).repo_list@).push(repo@));
            }
            true
        }
    }

    /// Takes `repo` off the list. Returns whether the list changed, in
    /// which case the configuration is to be saved.
    pub fn remove_repo(&mut self, repo: &str) -> (removed: bool)
        ensures
            removed == views(old(self).repo_list@).contains(repo@),
            views(final(self).repo_list@) == without(views(old(self).repo_list@), repo@),
            final(self).storage_directory == old(self).storage_directory,
            final(self).config_path == old(self).config_path,
    {
        let ghost all = views(self.repo_list@);
        let removed = lists(&self.repo_list, repo);
        let mut kept: Vec<String> = Vec::new();
        let mut i: usize = 0;
        proof {
            assert(all.take(0) =~= Seq::<Seq<char>>::empty());
            reveal(Seq::filter);
        }
        while i < self.repo_list.len()
            invariant
                i <= self.repo_list.len(),
                all == views(self.repo_list@),
                views(kept@) == without(all.take(i as int), repo@),
            decreases self.repo_list.len() - i,
        {
            let ghost before = views(kept@);
            proof {
                let so_far = all.take(i as int);
                let now = all.take(i + 1);
                assert(now.drop_last() =~= so_far);
                assert(now.last() == all[i as int]);
                reveal(Seq::filter);
            }
            if !same_text(self.repo_list[i].as_str(), repo) {
                kept.push(self.repo_list[i].clone());
                proof {
                    assert(views(kept@) =~= before.push(all[i as int]));
                }
            }
            i += 1;
        }
        proof {
            assert(all.take(self.repo_list.len() as int) =~= all);
        }
        self.repo_list = kept;
        removed
    }
}

/// The greeting of the server called `name`.
pub open spec fn greeting_view(name: Seq<char>) -> ResponseView {
    text_response(ResponseCodes::OK, "OK"@, "connected to photo server @ "@ + name)
}

impl PhotoServer {
    /// A server called `name` that listens on `address`.
    pub fn new(name: String, address: String) -> (server: PhotoServer)
        ensures
            server.name == name,
            server.address == address,
    {
        PhotoServer { name, address }
    }

    /// What a client is sent when its connection is accepted.
    pub fn greeting(&self) -> (response: Response)
        ensures
            response@ == greeting_view(self.name@),
    {
        let body = concat("connected to photo server @ ", self.name.as_str());
        Response::with_text(ResponseCodes::OK, "OK", body.as_str())
    }
}

/// The name or path that a request carries in its body.
pub fn requested_name(body: &[u8]) -> (name: String)
    ensures
        name@ == sanitized(utf8_lossy(body@)),
{
    let raw = lossy_text(body);
    sanitize(raw.as_str())
}

/// The answer to a request for a storage path.
pub open spec fn storage_path_view(exists: bool) -> ResponseView {
    if exists {
        text_response(ResponseCodes::OK, ""@, "Successfully set the storage directory path"@)
    } else {
        text_response(ResponseCodes::NotFound, "Invalid path"@, "Invalid Global Storage Path"@)
    }
}

/// Takes `path` as the storage directory, where `exists` says that the
/// host has it. On success the configuration is to be saved.
pub fn set_storage_path(config: &mut ServerConfig, path: String, exists: bool) -> (r: Response)
    ensures
        r@ == storage_path_view(exists),
        exists ==> final(config).storage_directory@ == path@,
        !exists ==> final(config).storage_directory@ == old(config).storage_directory@,
        final(config).repo_list == old(config).repo_list,
        final(config).config_path == old(config).config_path,
{
    if exists {
        config.storage_directory = path;
        Response::with_text(ResponseCodes::OK, "", "Successfully set the storage directory path")
    } else {
        Response::with_text(ResponseCodes::NotFound, "Invalid path", "Invalid Global Storage Path")
    }
}

/// The answer to a request for the repositories, where `encoded` is the
/// list as JSON, or nothing if it could not be written.
pub open spec fn repos_view(names: Seq<Seq<char>>, encoded: Option<Seq<u8>>) -> ResponseView {
    if names.len() == 0 {
        text_response(
            ResponseCodes::Empty,
            "Empty config"@,
            "There are no available repositories. The server will wait until you create one"@,
        )
    } else {
        match encoded {
            Some(body) => ResponseView {
                status_code: ResponseCodes::OK,
                status_message: "OK"@,
                body,
            },
            None => text_response(
                ResponseCodes::InternalError,
                "Err"@,
                "Failed to list the repositories"@,
            ),
        }
    }
}

/// The answer to a request for the repositories, given the list as JSON.
pub fn repos_response(names: &Vec<String>, encoded: Option<Vec<u8>>) -> (response: Response)
    ensures
        response@ == repos_view(
            views(names@),
            match encoded {
                Some(body) => Some(body@),
                None => None,
            },
        ),
{
    if names.len() == 0 {
        Response::with_text(
            ResponseCodes::Empty,
            "Empty config",
            "There are no available repositories. The server will wait until you create one",
        )
    } else {
        match encoded {
            Some(body) => Response {
                status_code: ResponseCodes::OK,
                status_message: "OK".to_owned(),
                body,
            },
            None => Response::with_text(
                ResponseCodes::InternalError,
                "Err",
                "Failed to list the repositories",
            ),
        }
    }
}

/// The answer to a request for the repositories: `Empty` where there are
/// none, else `OK` with the list, in its stored order, as a JSON array.
pub fn get_repos(config: &ServerConfig) -> (response: Response)
    ensures
        response@ == repos_view(
            views(config.repo_list@),
            Some(json_of_names(views(config.repo_list@))),
        ),
{
    let encoded = if config.repo_list.len() == 0 {
        None
    } else {
        names_to_json(&config.repo_list)
    };
    repos_response(&config.repo_list, encoded)
}

/// Where the tree of the repository `name` is kept.
pub open spec fn tree_file_text(name: Seq<char>) -> Seq<char> {
    "trees/"@ + name + ".tree"@
}

/// Where the tree of the repository `name` is kept.
pub fn tree_file(name: &str) -> (path: String)
    ensures
        path@ == tree_file_text(name@),
{
    let mut path = concat("trees/", name);
    path.append(".tree");
    path
}

/// `dir`, a slash, and `name`.
pub fn join(dir: &str, name: &str) -> (path: String)
    ensures
        path@ == joined(dir@, name@),
{
    let mut path = concat(dir, "/");
    path.append(name);
    proof {
        reveal_strlit("/");
        assert(dir@ + "/"@ =~= dir@.push('/'));
    }
    path
}

/// The directory of the repository `name`.
pub fn repo_directory(config: &ServerConfig, name: &str) -> (path: String)
    ensures
        path@ == joined(config.storage_directory@, name@),
{
    join(config.storage_directory.as_str(), name)
}

/// The answer to a request to create the repository `name`: `exists` says
/// whether its directory was there already, `failure` why the directory
/// could not be made, if it could not.
pub open spec fn create_view(name: Seq<char>, exists: bool, failure: Option<Seq<char>>) -> ResponseView {
    if exists {
        text_response(
            ResponseCodes::Duplicate,
            "Err"@,
            "A repo with the same name already exists"@,
        )
    } else {
        match failure {
            None => text_response(
                ResponseCodes::OK,
                "OK"@,
                "Successfully created new repository | "@ + name,
            ),
            Some(why) => text_response(
                ResponseCodes::InternalError,
                "Failed to create the repo directory"@,
                why,
            ),
        }
    }
}

/// Creates the repository `name`, unless its directory exists. The host
/// says in `exists` whether it does, and, where it does not, in `failure`
/// why making it failed, if it did. A created repository is registered and
/// gets an empty tree, which is returned to be saved with the
/// configuration.
pub fn create_repo(config: &mut ServerConfig, name: String, exists: bool, failure: Option<String>) -> (out:
    (Response, Option<Tree>))
    ensures
        out.0@ == create_view(
            name@,
            exists,
            match failure {
                Some(why) => Some(why@),
                None => None,
            },
        ),
        final(config).storage_directory == old(config).storage_directory,
        final(config).config_path == old(config).config_path,
        exists ==> out.1 is None && final(config).repo_list == old(config).repo_list,
        !exists ==> {
            &&& views(final(config).repo_list@) == if views(old(config).repo_list@).contains(name@) {
                views(old(config).repo_list@)
            } else {
                views(old(config).repo_list@).push(name@)
            }
            &&& out.1 matches Some(tree) && tree.wf() && tree.name_text() == name@
                && tree.path_text() == tree_file_text(name@) && tree.next_index() == 0
                && tree.content() == Map::<Seq<char>, Seq<Seq<char>>>::empty()
        },
{
    if exists {
        let response = Response::with_text(
            ResponseCodes::Duplicate,
            "Err",
            "A repo with the same name already exists",
        );
        return (response, None);
    }
    let response = match failure {
        None => {
            let body = concat("Successfully created new repository | ", name.as_str());
            Response::with_text(ResponseCodes::OK, "OK", body.as_str())
        },
        Some(why) => Response::with_text(
            ResponseCodes::InternalError,
            "Failed to create the repo directory",
            why.as_str(),
        ),
    };
    let path = tree_file(name.as_str());
    let tree = Tree::new(name.clone(), path);
    let _ = config.add_repo(name);
    (response, Some(tree))
}

/// What is to be deleted when a repository is removed.
pub struct Removal {
    /// The file of the repository's tree.
    pub tree_file: String,
    /// The directory of the repository, to be deleted with all it holds.
    pub directory: String,
}

/// The answer to a request to remove the repository `name`.
pub open spec fn remove_view(name: Seq<char>) -> ResponseView {
    text_response(ResponseCodes::OK, "OK"@, name + " repo successfully deleted"@)
}

/// Removes the repository `name`: takes it off the list and names what
/// the host is to delete. The answer is `OK` whether or not anything of
/// the repository was left.
pub fn remove_repository(config: &mut ServerConfig, name: &str) -> (out: (Response, Removal))
    ensures
        out.0@ == remove_view(name@),
        out.1.tree_file@ == tree_file_text(name@),
        out.1.directory@ == joined(old(config).storage_directory@, name@),
        views(final(config).repo_list@) == without(views(old(config).repo_list@), name@),
        final(config).storage_directory == old(config).storage_directory,
        final(config).config_path == old(config).config_path,
{
    let directory = repo_directory(config, name);
    let _ = config.remove_repo(name);
    let body = concat(name, " repo successfully deleted");
    let response = Response::with_text(ResponseCodes::OK, "OK", body.as_str());
    (response, Removal { tree_file: tree_file(name), directory })
}

/// A request for the tree of a repository, by someone who holds `version`
/// entries of its history.
pub struct TreeRequest {
    pub repo_name: String,
    pub version: i32,
}

/// What a request for a tree asks, given what its body holds under
/// `repo_name` and `version`: a missing name stands for the empty name, a
/// missing version for zero, and a version above the highest that a tree
/// can reach for that highest.
pub open spec fn tree_request_of(name: Option<Seq<char>>, version: Option<u64>) -> (Seq<char>, i32) {
    (
        match name {
            Some(text) => text,
            None => Seq::empty(),
        },
        match version {
            Some(v) => if v > i32::MAX as u64 {
                i32::MAX
            } else {
                v as i32
            },
            None => 0i32,
        },
    )
}

/// Reads a request for a tree from what its body holds.
pub fn tree_request_from(name: Option<String>, version: Option<u64>) -> (request: TreeRequest)
    ensures
        (request.repo_name@, request.version) == tree_request_of(
            match name {
                Some(text) => Some(text@),
                None => None,
            },
            version,
        ),
{
    let repo_name = match name {
        Some(text) => text,
        None => String::new(),
    };
    let version = match version {
        Some(v) => if v > i32::MAX as u64 {
            i32::MAX
        } else {
            v as i32
        },
        None => 0,
    };
    TreeRequest { repo_name, version }
}

/// Reads a request for a tree from the body of a request. None where the
/// body is no JSON object.
pub fn parse_tree_request(body: &[u8]) -> (request: Option<TreeRequest>)
    ensures
        match request {
            Some(r) => json_text_field(body@, "repo_name"@) matches Some(name)
                && json_number_field(body@, "version"@) matches Some(version) && (
            r.repo_name@, r.version) == tree_request_of(name, version),
            None => json_text_field(body@, "repo_name"@) is None || json_number_field(
                body@,
                "version"@,
            ) is None,
        },
{
    let name = match text_field(body, "repo_name") {
        Some(name) => name,
        None => {
            return None;
        },
    };
    let version = match number_field(body, "version") {
        Some(version) => version,
        None => {
            return None;
        },
    };
    Some(tree_request_from(name, version))
}

/// The answer to a request for a tree by a holder of `version` entries,
/// where the tree has `held` and `encoded` is the JSON of the updates, or
/// nothing if it could not be written.
pub open spec fn tree_view(held: int, version: int, encoded: Option<Seq<u8>>) -> ResponseView {
    if held > version {
        match encoded {
            Some(body) => ResponseView {
                status_code: ResponseCodes::OK,
                status_message: "Missing updates"@,
                body,
            },
            None => text_response(
                ResponseCodes::InternalError,
                "Err"@,
                "Failed to write the updates"@,
            ),
        }
    } else {
        ResponseView {
            status_code: ResponseCodes::OK,
            status_message: "No updates"@,
            body: Seq::empty(),
        }
    }
}

/// The answer to a request for a tree, given the JSON of the updates.
pub fn tree_response(held: i32, version: i32, encoded: Option<Vec<u8>>) -> (response: Response)
    ensures
        response@ == tree_view(
            held as int,
            version as int,
            match encoded {
                Some(body) => Some(body@),
                None => None,
            },
        ),
{
    if held > version {
        match encoded {
            Some(body) => Response {
                status_code: ResponseCodes::OK,
                status_message: "Missing updates".to_owned(),
                body,
            },
            None => Response::with_text(
                ResponseCodes::InternalError,
                "Err",
                "Failed to write the updates",
            ),
        }
    } else {
        Response {
            status_code: ResponseCodes::OK,
            status_message: "No updates".to_owned(),
            body: Vec::new(),
        }
    }
}

/// The answer to a request for `tree` by a holder of `version` entries:
/// `OK` either way; where the tree has more, with the entries from
/// `first_update(version)` on as a JSON object, and else with an empty
/// body.
pub fn get_repo_tree(tree: &Tree, version: i32) -> (response: Response)
    requires
        tree.wf(),
    ensures
        response@ == tree_view(
            tree.next_index(),
            version as int,
            Some(json_of_updates(entries_from(tree.history(), first_update(version as int)))),
        ),
{
    let held = tree.version();
    if held > version {
        let updates = tree.updates_after(version);
        proof {
            let sent = updates_view(updates@);
            assert forall|i: int, j: int| 0 <= i < j < sent.len() implies sent[i].0 < sent[j].0 by {}
        }
        let encoded = updates_to_json(&updates);
        tree_response(held, version, encoded)
    } else {
        tree_response(held, version, None)
    }
}

/// The address on which a batch processor listens at `port`.
pub open spec fn listener_text(port: u16) -> Seq<char> {
    "0.0.0.0:"@ + decimal_text(port as nat)
}

/// The address on which a batch processor listens at `port`.
pub fn listener_address(port: u16) -> (address: String)
    ensures
        address@ == listener_text(port),
{
    let digits = decimal(port as u64);
    concat("0.0.0.0:", digits.as_str())
}

/// `rand::rng().random_range(0..u16::MAX)`: some port below the highest.
#[verifier::external_body]
fn random_port() -> (port: u16)
    ensures
        port < u16::MAX,
{
    rand::Rng::random_range(&mut rand::rng(), 0..u16::MAX)
}

/// An address for a batch processor to listen on, at a port picked at
/// random below the highest.
pub fn propose_listener_address() -> (address: String)
    ensures
        exists|port: u16| port < u16::MAX && address@ == listener_text(port),
{
    let port = random_port();
    listener_address(port)
}

/// The answer to a request to start a batch processor, where `address` is
/// what it listens on, if it does.
pub open spec fn started_view(address: Option<Seq<char>>) -> ResponseView {
    match address {
        Some(at) => text_response(ResponseCodes::OK, "Initiated file stream @ "@ + at, at),
        None => text_response(ResponseCodes::InternalError, "Err"@, "Failed to batch processor"@),
    }
}

/// The answer to a request to start a batch processor.
pub fn batch_processor_started(address: Option<&str>) -> (response: Response)
    ensures
        response@ == started_view(
            match address {
                Some(at) => Some(at@),
                None => None,
            },
        ),
{
    match address {
        Some(at) => {
            let message = concat("Initiated file stream @ ", at);
            Response::with_text(ResponseCodes::OK, message.as_str(), at)
        },
        None => Response::with_text(ResponseCodes::InternalError, "Err", "Failed to batch processor"),
    }
}

/// The answer to a request to end the batch processor, where `joined`
/// says whether it ended.
pub open spec fn ended_view(joined: bool) -> ResponseView {
    if joined {
        text_response(ResponseCodes::OK, "OK"@, "Successfully terminated batch processor"@)
    } else {
        text_response(
            ResponseCodes::InternalError,
            "Err"@,
            "batch processor failed to terminate"@,
        )
    }
}

/// The answer to a request to end the batch processor.
pub fn batch_processor_ended(joined: bool) -> (response: Response)
    ensures
        response@ == ended_view(joined),
{
    if joined {
        Response::with_text(ResponseCodes::OK, "OK", "Successfully terminated batch processor")
    } else {
        Response::with_text(
            ResponseCodes::InternalError,
            "Err",
            "batch processor failed to terminate",
        )
    }
}

/// The greeting of a batch processor to the client at `peer`.
pub open spec fn processor_greeting_view(peer: Seq<char>) -> ResponseView {
    text_response(ResponseCodes::OK, "OK"@, peer + " connected to batch processor"@)
}

/// What a client is sent when the batch processor accepts its connection.
pub fn processor_greeting(peer: &str) -> (response: Response)
    ensures
        response@ == processor_greeting_view(peer@),
{
    let body = concat(peer, " connected to batch processor");
    Response::with_text(ResponseCodes::OK, "OK", body.as_str())
}

/// Where the file of `header` is stored under `storage`.
pub open spec fn destination_text(storage: Seq<char>, repo: Seq<char>, file: Seq<char>) -> Seq<char> {
    joined(joined(storage, repo), file)
}

/// Where the file of `header` is stored under `storage`.
pub fn destination(storage: &str, header: &FileHeader) -> (path: String)
    ensures
        path@ == destination_text(storage@, header.repo_name@, header.file_name@),
{
    let dir = join(storage, header.repo_name.as_str());
    join(dir.as_str(), header.file_name.as_str())
}

/// The history entry that records the creation of `path`.
pub open spec fn created_entry(path: Seq<char>) -> Seq<char> {
    seq!['+'] + path
}

/// The history entry that records the creation of `path`.
pub fn creation_entry(path: &str) -> (entry: String)
    ensures
        entry@ == created_entry(path@),
{
    let entry = concat("+", path);
    proof {
        reveal_strlit("+");
        assert("+"@ =~= seq!['+']);
    }
    entry
}

/// Records in `tree` that the file of `header` was stored under
/// `storage`: appends the creation of its path to the history and replays
/// that one entry. Returns the path, or nothing, with the tree as it was,
/// where the history is full.
pub fn record_upload(tree: &mut Tree, storage: &str, header: &FileHeader) -> (stored: Option<String>)
    requires
        old(tree).wf(),
    ensures
        final(tree).wf(),
        final(tree).name_text() == old(tree).name_text(),
        final(tree).path_text() == old(tree).path_text(),
        match stored {
            Some(path) => {
                &&& old(tree).next_index() < i32::MAX
                &&& path@ == destination_text(storage@, header.repo_name@, header.file_name@)
                &&& final(tree).history() == old(tree).history().push(created_entry(path@))
                &&& final(tree).content() == with_entry(old(tree).content(), created_entry(path@))
                &&& old(tree).in_step() ==> final(tree).in_step()
            },
            None => {
                &&& old(tree).next_index() >= i32::MAX
                &&& final(tree).history() == old(tree).history()
                &&& final(tree).content() == old(tree).content()
            },
        },
{
    if tree.version() >= i32::MAX {
        return None;
    }
    let path = destination(storage, header);
    let entry = creation_entry(path.as_str());
    let _ = tree.record(entry);
    Some(path)
}

/// The acknowledgement of a batch of `count` files.
pub open spec fn ack_view(count: nat) -> ResponseView {
    text_response(ResponseCodes::OK, "OK"@, "received "@ + decimal_text(count) + " file(s)"@)
}

/// The one response that acknowledges a batch of `count` files.
pub fn batch_ack(count: usize) -> (response: Response)
    ensures
        response@ == ack_view(count as nat),
{
    let digits = decimal(count as u64);
    let mut body = concat("received ", digits.as_str());
    body.append(" file(s)");
    Response::with_text(ResponseCodes::OK, "OK", body.as_str())
}

} // verus!

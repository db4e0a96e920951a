use photo_backup::header::{FileHeader, Timestamp};
use photo_backup::protocol::{Response, ResponseCodes};
use photo_backup::server::{
    batch_ack, batch_processor_ended, batch_processor_started, create_repo, creation_entry,
    destination, get_repo_tree, get_repos, join, listener_address, parse_tree_request,
    processor_greeting, propose_listener_address, record_upload, remove_repository,
    repo_directory, repos_response,
    requested_name, set_storage_path, tree_file, tree_request_from, tree_response, PhotoServer,
    ServerConfig,
};
use photo_backup::tree::Tree;

fn config(storage: &str, repos: &[&str]) -> ServerConfig {
    ServerConfig {
        storage_directory: storage.to_string(),
        repo_list: repos.iter().map(|r| r.to_string()).collect(),
        config_path: "server.cfg".to_string(),
    }
}

fn body_text(response: &Response) -> String {
    String::from_utf8(response.body.clone()).expect("text")
}

#[test]
fn server_config_default_is_empty() {
    let c = ServerConfig::default();
    assert_eq!(c.storage_directory, "");
    assert!(c.repo_list.is_empty());
    assert_eq!(c.config_path, "");
}

#[test]
fn add_repo_keeps_order_and_skips_known_names() {
    let mut c = config("/srv", &[]);
    assert!(c.add_repo("beta".to_string()));
    assert!(c.add_repo("alpha".to_string()));
    assert!(!c.add_repo("beta".to_string()));
    assert_eq!(c.repo_list, vec!["beta".to_string(), "alpha".to_string()]);
    assert_eq!(c.storage_directory, "/srv");
}

#[test]
fn remove_repo_takes_the_name_off() {
    let mut c = config("/srv", &["a", "b", "c"]);
    assert!(c.remove_repo("b"));
    assert_eq!(c.repo_list, vec!["a".to_string(), "c".to_string()]);
    assert!(!c.remove_repo("b"));
    assert_eq!(c.repo_list, vec!["a".to_string(), "c".to_string()]);
}

#[test]
fn photo_server_new_keeps_its_arguments() {
    let server = PhotoServer::new("host".to_string(), "0.0.0.0:8080".to_string());
    assert_eq!(server.name, "host");
    assert_eq!(server.address, "0.0.0.0:8080");
}

#[test]
fn greeting_names_the_server() {
    let server = PhotoServer::new("host".to_string(), "0.0.0.0:8080".to_string());
    let r = server.greeting();
    assert_eq!(r.status_code, ResponseCodes::OK);
    assert_eq!(r.status_message, "OK");
    assert_eq!(body_text(&r), "connected to photo server @ host");
}

#[test]
fn requested_name_is_trimmed_and_cleaned() {
    assert_eq!(requested_name(b"  alpha \n"), "alpha");
    assert_eq!(requested_name(b"al\tpha"), "al_pha");
    assert_eq!(requested_name(b"\x00alpha\x7f"), "_alpha_");
    assert_eq!(requested_name(b"  a b  "), "a b");
    assert_eq!(requested_name(b""), "");
    assert_eq!(requested_name(b" \t\r\n"), "");
    assert_eq!(requested_name("  \u{e9}t\u{e9}\u{a0}".as_bytes()), "\u{e9}t\u{e9}");
}

#[test]
fn requested_name_replaces_ill_formed_bytes() {
    assert_eq!(requested_name(&[b'a', 0xFF, b'b']), "a\u{FFFD}b");
    assert_eq!(requested_name(&[0xC3]), "\u{FFFD}");
}

#[test]
fn set_storage_path_takes_an_existing_path() {
    let mut c = config("", &["alpha"]);
    let r = set_storage_path(&mut c, "/tmp/srv".to_string(), true);
    assert_eq!(r.status_code, ResponseCodes::OK);
    assert_eq!(r.status_message, "");
    assert_eq!(body_text(&r), "Successfully set the storage directory path");
    assert_eq!(c.storage_directory, "/tmp/srv");
    assert_eq!(c.repo_list, vec!["alpha".to_string()]);
}

#[test]
fn set_storage_path_rejects_a_missing_path() {
    let mut c = config("/old", &[]);
    let r = set_storage_path(&mut c, "/nowhere".to_string(), false);
    assert_eq!(r.status_code, ResponseCodes::NotFound);
    assert_eq!(r.status_message, "Invalid path");
    assert_eq!(body_text(&r), "Invalid Global Storage Path");
    assert_eq!(c.storage_directory, "/old");
}

#[test]
fn get_repos_without_repositories_is_empty() {
    let r = get_repos(&config("/srv", &[]));
    assert_eq!(r.status_code, ResponseCodes::Empty);
    assert_eq!(r.status_message, "Empty config");
    assert_eq!(
        body_text(&r),
        "There are no available repositories. The server will wait until you create one"
    );
}

#[test]
fn get_repos_lists_names_as_json() {
    let r = get_repos(&config("/srv", &["alpha", "be\"ta"]));
    assert_eq!(r.status_code, ResponseCodes::OK);
    assert_eq!(r.status_message, "OK");
    assert_eq!(body_text(&r), "[\"alpha\",\"be\\\"ta\"]");
}

#[test]
fn repos_response_without_json_is_an_error() {
    let names = vec!["alpha".to_string()];
    let r = repos_response(&names, None);
    assert_eq!(r.status_code, ResponseCodes::InternalError);
    assert_eq!(r.status_message, "Err");
    let r = repos_response(&names, Some(vec![1, 2]));
    assert_eq!(r.status_code, ResponseCodes::OK);
    assert_eq!(r.body, vec![1, 2]);
    let r = repos_response(&Vec::new(), Some(vec![1, 2]));
    assert_eq!(r.status_code, ResponseCodes::Empty);
}

#[test]
fn paths_are_joined_with_slashes() {
    assert_eq!(tree_file("alpha"), "trees/alpha.tree");
    assert_eq!(join("/tmp/srv", "alpha"), "/tmp/srv/alpha");
    assert_eq!(join("", "alpha"), "/alpha");
    assert_eq!(repo_directory(&config("/tmp/srv", &[]), "alpha"), "/tmp/srv/alpha");
}

#[test]
fn create_repo_registers_and_gives_an_empty_tree() {
    let mut c = config("/tmp/srv", &[]);
    let (r, tree) = create_repo(&mut c, "alpha".to_string(), false, None);
    assert_eq!(r.status_code, ResponseCodes::OK);
    assert_eq!(r.status_message, "OK");
    assert_eq!(body_text(&r), "Successfully created new repository | alpha");
    assert_eq!(c.repo_list, vec!["alpha".to_string()]);
    let tree = tree.expect("a tree");
    assert_eq!(tree.name(), "alpha");
    assert_eq!(tree.path(), "trees/alpha.tree");
    assert_eq!(tree.version(), 0);
    assert!(tree.directories().is_empty());
}

#[test]
fn duplicate_create() {
    let mut c = config("/tmp/srv", &[]);
    let (first, tree) = create_repo(&mut c, "alpha".to_string(), false, None);
    assert_eq!(first.status_code, ResponseCodes::OK);
    assert!(tree.is_some());
    // The directory is there now, so the host reports it.
    let (second, tree) = create_repo(&mut c, "alpha".to_string(), true, None);
    assert_eq!(second.status_code, ResponseCodes::Duplicate);
    assert_eq!(second.status_message, "Err");
    assert_eq!(body_text(&second), "A repo with the same name already exists");
    assert!(tree.is_none());
    assert_eq!(c.repo_list, vec!["alpha".to_string()]);
}

#[test]
fn create_repo_reports_a_failed_directory() {
    let mut c = config("/tmp/srv", &["beta"]);
    let (r, tree) = create_repo(&mut c, "alpha".to_string(), false, Some("denied".to_string()));
    assert_eq!(r.status_code, ResponseCodes::InternalError);
    assert_eq!(r.status_message, "Failed to create the repo directory");
    assert_eq!(body_text(&r), "denied");
    assert_eq!(c.repo_list, vec!["beta".to_string(), "alpha".to_string()]);
    assert!(tree.is_some());
}

#[test]
fn remove_repository_names_what_to_delete() {
    let mut c = config("/tmp/srv", &["alpha", "beta"]);
    let (r, removal) = remove_repository(&mut c, "alpha");
    assert_eq!(r.status_code, ResponseCodes::OK);
    assert_eq!(r.status_message, "OK");
    assert_eq!(body_text(&r), "alpha repo successfully deleted");
    assert_eq!(removal.tree_file, "trees/alpha.tree");
    assert_eq!(removal.directory, "/tmp/srv/alpha");
    assert_eq!(c.repo_list, vec!["beta".to_string()]);
    // Removing it again is answered in the same way.
    let (r, _) = remove_repository(&mut c, "alpha");
    assert_eq!(r.status_code, ResponseCodes::OK);
    assert_eq!(c.repo_list, vec!["beta".to_string()]);
}

#[test]
fn tree_request_is_read_from_json() {
    let r = parse_tree_request(b"{\"repo_name\":\"alpha\",\"version\":3}").expect("an object");
    assert_eq!(r.repo_name, "alpha");
    assert_eq!(r.version, 3);
    let r = parse_tree_request(b" { \"version\" : 7 , \"repo_name\" : \"b\" } ").expect("an object");
    assert_eq!(r.repo_name, "b");
    assert_eq!(r.version, 7);
}

#[test]
fn tree_request_defaults() {
    let r = parse_tree_request(b"{}").expect("an object");
    assert_eq!(r.repo_name, "");
    assert_eq!(r.version, 0);
    let r = parse_tree_request(b"{\"repo_name\":5,\"version\":\"x\"}").expect("an object");
    assert_eq!(r.repo_name, "");
    assert_eq!(r.version, 0);
    let r = parse_tree_request(b"{\"repo_name\":\"a\",\"version\":-1}").expect("an object");
    assert_eq!(r.repo_name, "a");
    assert_eq!(r.version, 0);
    let r = tree_request_from(None, None);
    assert_eq!(r.repo_name, "");
    assert_eq!(r.version, 0);
    let r = tree_request_from(Some("x".to_string()), Some(12));
    assert_eq!(r.repo_name, "x");
    assert_eq!(r.version, 12);
}

#[test]
fn tree_request_that_is_no_object_is_refused() {
    assert!(parse_tree_request(b"").is_none());
    assert!(parse_tree_request(b"[1,2]").is_none());
    assert!(parse_tree_request(b"{\"repo_name\":").is_none());
    assert!(parse_tree_request(&[0xFF, 0xFE]).is_none());
}

fn tree_of(entries: &[&str]) -> Tree {
    let mut tree = Tree::new("alpha".to_string(), "trees/alpha.tree".to_string());
    for e in entries {
        tree.record(e.to_string());
    }
    tree
}

#[test]
fn get_repo_tree_sends_missing_entries() {
    let tree = tree_of(&["+a/0", "+a/1", "+a/2", "+a/3", "+a/4"]);
    let r = get_repo_tree(&tree, 3);
    assert_eq!(r.status_code, ResponseCodes::OK);
    assert_eq!(r.status_message, "Missing updates");
    assert_eq!(body_text(&r), "{\"4\":\"+a/4\"}");
    let r = get_repo_tree(&tree, 2);
    assert_eq!(body_text(&r), "{\"3\":\"+a/3\",\"4\":\"+a/4\"}");
}

#[test]
fn get_repo_tree_from_nothing_sends_everything() {
    let tree = tree_of(&["+a/0", "+a/1"]);
    let r = get_repo_tree(&tree, 0);
    assert_eq!(r.status_message, "Missing updates");
    assert_eq!(body_text(&r), "{\"0\":\"+a/0\",\"1\":\"+a/1\"}");
}

#[test]
fn get_repo_tree_of_one_who_is_up_to_date() {
    let tree = tree_of(&["+a/0", "+a/1"]);
    for version in [2, 3, i32::MAX] {
        let r = get_repo_tree(&tree, version);
        assert_eq!(r.status_code, ResponseCodes::OK);
        assert_eq!(r.status_message, "No updates");
        assert!(r.body.is_empty());
    }
    let r = get_repo_tree(&tree_of(&[]), 0);
    assert_eq!(r.status_message, "No updates");
    assert!(r.body.is_empty());
}

#[test]
fn get_repo_tree_of_a_negative_version() {
    let tree = tree_of(&["+a/0", "+a/1"]);
    let r = get_repo_tree(&tree, -1);
    assert_eq!(r.status_message, "Missing updates");
    assert_eq!(body_text(&r), "{\"0\":\"+a/0\",\"1\":\"+a/1\"}");
}

#[test]
fn tree_response_without_json_is_an_error() {
    let r = tree_response(5, 3, None);
    assert_eq!(r.status_code, ResponseCodes::InternalError);
    let r = tree_response(5, 3, Some(vec![b'{', b'}']));
    assert_eq!(r.status_code, ResponseCodes::OK);
    assert_eq!(r.status_message, "Missing updates");
    assert_eq!(r.body, vec![b'{', b'}']);
    let r = tree_response(3, 3, Some(vec![b'{', b'}']));
    assert_eq!(r.status_message, "No updates");
    assert!(r.body.is_empty());
}

#[test]
fn listener_address_is_written_in_decimal() {
    assert_eq!(listener_address(0), "0.0.0.0:0");
    assert_eq!(listener_address(7), "0.0.0.0:7");
    assert_eq!(listener_address(8080), "0.0.0.0:8080");
    assert_eq!(listener_address(65535), "0.0.0.0:65535");
}

#[test]
fn proposed_listener_address_has_a_port_below_the_highest() {
    for _ in 0..200 {
        let address = propose_listener_address();
        let port = address.strip_prefix("0.0.0.0:").expect("the prefix");
        let port: u32 = port.parse().expect("a number");
        assert!(port < 65535);
        assert_eq!(address, listener_address(port as u16));
    }
}

#[test]
fn batch_processor_greets_its_client() {
    let r = processor_greeting("127.0.0.1:5000");
    assert_eq!(r.status_code, ResponseCodes::OK);
    assert_eq!(r.status_message, "OK");
    assert_eq!(body_text(&r), "127.0.0.1:5000 connected to batch processor");
}

#[test]
fn batch_processor_answers() {
    let r = batch_processor_started(Some("0.0.0.0:4000"));
    assert_eq!(r.status_code, ResponseCodes::OK);
    assert_eq!(r.status_message, "Initiated file stream @ 0.0.0.0:4000");
    assert_eq!(body_text(&r), "0.0.0.0:4000");
    let r = batch_processor_started(None);
    assert_eq!(r.status_code, ResponseCodes::InternalError);
    assert_eq!(r.status_message, "Err");
    let r = batch_processor_ended(true);
    assert_eq!(r.status_code, ResponseCodes::OK);
    assert_eq!(body_text(&r), "Successfully terminated batch processor");
    let r = batch_processor_ended(false);
    assert_eq!(r.status_code, ResponseCodes::InternalError);
    assert_eq!(body_text(&r), "batch processor failed to terminate");
}

fn header(repo: &str, file: &str) -> FileHeader {
    FileHeader {
        repo_name: repo.to_string(),
        file_name: file.to_string(),
        file_ext: "jpg".to_string(),
        file_size: 4,
        file_datetime: Timestamp { secs: 0, nanos: 0 },
        file_location: format!("/tmp/cli/{}/{}", repo, file),
    }
}

#[test]
fn destination_is_storage_repo_file() {
    assert_eq!(
        destination("/tmp/srv", &header("alpha", "photo1.jpg")),
        "/tmp/srv/alpha/photo1.jpg"
    );
    assert_eq!(
        destination("/tmp/srv", &header("alpha", "sub/photo2.jpg")),
        "/tmp/srv/alpha/sub/photo2.jpg"
    );
    assert_eq!(creation_entry("/tmp/srv/alpha/photo1.jpg"), "+/tmp/srv/alpha/photo1.jpg");
}

#[test]
fn happy_create_and_upload() {
    let mut c = ServerConfig::default();
    let r = set_storage_path(&mut c, "/tmp/srv".to_string(), true);
    assert_eq!(r.status_code, ResponseCodes::OK);
    let name = requested_name(b"alpha");
    let (r, tree) = create_repo(&mut c, name, false, None);
    assert_eq!(r.status_code, ResponseCodes::OK);
    let mut tree = tree.expect("a tree");
    let stored = record_upload(&mut tree, &c.storage_directory, &header("alpha", "photo1.jpg"));
    assert_eq!(stored, Some("/tmp/srv/alpha/photo1.jpg".to_string()));
    assert_eq!(tree.version(), 1);
    assert_eq!(tree.history_entry(0), Some("+/tmp/srv/alpha/photo1.jpg".to_string()));
    assert_eq!(tree.children("alpha"), Some(vec!["photo1.jpg".to_string()]));
    assert_eq!(tree.children("srv"), Some(vec!["alpha".to_string()]));
    let r = batch_ack(1);
    assert_eq!(r.status_code, ResponseCodes::OK);
    assert_eq!(body_text(&r), "received 1 file(s)");
}

#[test]
fn record_upload_keeps_earlier_files() {
    let mut tree = tree_of(&[]);
    record_upload(&mut tree, "/s", &header("alpha", "a.jpg"));
    record_upload(&mut tree, "/s", &header("alpha", "sub/b.jpg"));
    record_upload(&mut tree, "/s", &header("alpha", "a.jpg"));
    assert_eq!(tree.version(), 3);
    assert_eq!(
        tree.children("alpha"),
        Some(vec!["a.jpg".to_string(), "sub".to_string()])
    );
    assert_eq!(tree.children("sub"), Some(vec!["b.jpg".to_string()]));
}

#[test]
fn batch_ack_counts_the_files() {
    assert_eq!(body_text(&batch_ack(0)), "received 0 file(s)");
    assert_eq!(body_text(&batch_ack(10)), "received 10 file(s)");
    assert_eq!(body_text(&batch_ack(12345)), "received 12345 file(s)");
    assert_eq!(batch_ack(3).status_message, "OK");
}

#[test]
fn a_version_beyond_any_tree_is_taken_for_the_highest() {
    let r = tree_request_from(Some("x".to_string()), Some(i32::MAX as u64));
    assert_eq!(r.version, i32::MAX);
    let r = tree_request_from(Some("x".to_string()), Some(i32::MAX as u64 + 1));
    assert_eq!(r.version, i32::MAX);
    let r = tree_request_from(Some("x".to_string()), Some(u64::MAX));
    assert_eq!(r.version, i32::MAX);
    let r = parse_tree_request(b"{\"repo_name\":\"a\",\"version\":4294967296}").expect("an object");
    assert_eq!(r.version, i32::MAX);
    // Such a requester holds no less than any tree, and is sent nothing.
    let tree = tree_of(&["+a/0", "+a/1"]);
    let answer = get_repo_tree(&tree, r.version);
    assert_eq!(answer.status_code, ResponseCodes::OK);
    assert_eq!(answer.status_message, "No updates");
    assert!(answer.body.is_empty());
}

#[test]
fn tree_catch_up_answer() {
    let tree = tree_of(&["+a/e0", "+a/e1", "+a/e2", "+a/e3", "+a/e4"]);
    assert_eq!(tree.version(), 5);
    let request = parse_tree_request(b"{\"repo_name\": \"alpha\", \"version\": 3}").expect("an object");
    let answer = get_repo_tree(&tree, request.version);
    assert_eq!(answer.status_code, ResponseCodes::OK);
    assert_eq!(body_text(&answer), "{\"4\":\"+a/e4\"}");
}

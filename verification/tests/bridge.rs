use agentdrop::bridge::{
    discover_bridge_sockets, is_bridge_socket_name, request_upload, resolve_remote_path,
    response_document, upload_request, BridgeClient, BridgeError, DirectoryEntry, SocketLookup,
    UploadAttempt, UploadStep,
};
use agentdrop::connect::remote_socket;
use agentdrop::path::{absolute, has_parent_component, paths_match};
use agentdrop::protocol::{UploadRequest, UploadResponse};

fn entry(name: Option<&str>, is_socket: bool, modified: Option<i128>) -> DirectoryEntry {
    DirectoryEntry {
        name: name.map(str::to_string),
        is_socket,
        modified,
        path: format!("/tmp/{}", name.unwrap_or("?")).into_bytes(),
    }
}

#[test]
fn newest_sockets_come_first() {
    let entries = vec![
        entry(Some("agentdrop-old.sock"), true, Some(-5)),
        entry(Some("agentdrop-unknown.sock"), true, None),
        entry(Some("agentdrop-new.sock"), true, Some(7)),
        entry(Some("agentdrop-plain.sock"), false, Some(99)),
        entry(None, true, Some(99)),
        entry(Some("other.sock"), true, Some(99)),
        entry(Some("agentdrop-x.socket"), true, Some(99)),
        entry(Some("agentdrop-same.sock"), true, Some(7)),
        entry(Some("agentdrop-forgotten.sock"), true, None),
    ];
    let names: Vec<String> = discover_bridge_sockets(entries)
        .into_iter()
        .map(|path| String::from_utf8(path).unwrap_or_default())
        .collect();
    assert_eq!(
        names,
        vec![
            "/tmp/agentdrop-new.sock",
            "/tmp/agentdrop-same.sock",
            "/tmp/agentdrop-old.sock",
            "/tmp/agentdrop-unknown.sock",
            "/tmp/agentdrop-forgotten.sock",
        ]
    );
    assert!(discover_bridge_sockets(vec![]).is_empty());
}

#[test]
fn a_session_socket_is_found() {
    let socket = remote_socket("0123456789abcdef");
    let name = socket.strip_prefix("/tmp/").unwrap_or_default();
    assert!(is_bridge_socket_name(name));
    assert!(is_bridge_socket_name("agentdrop-.sock"));
    assert!(!is_bridge_socket_name("agentdrop.sock"));
    assert!(!is_bridge_socket_name(".sock"));
    assert!(!is_bridge_socket_name("xagentdrop-1.sock"));
    assert!(!is_bridge_socket_name("agentdrop-1.sock~"));
    assert!(!is_bridge_socket_name(""));
}

#[test]
fn a_given_socket_is_the_only_one() {
    let given = BridgeClient::new(Some(b"/tmp/given".to_vec()));
    assert_eq!(
        given.lookup(Some(b"/tmp/env".to_vec())),
        SocketLookup::Only(b"/tmp/given".to_vec())
    );
    let free = BridgeClient::new(None);
    assert_eq!(
        free.lookup(Some(b"/tmp/env".to_vec())),
        SocketLookup::Only(b"/tmp/env".to_vec())
    );
    assert_eq!(free.lookup(None), SocketLookup::Scan);
}

fn start(sockets: &[&str]) -> UploadAttempt {
    let sockets = sockets.iter().map(|socket| socket.as_bytes().to_vec()).collect();
    match UploadAttempt::start(sockets) {
        Ok(attempt) => attempt,
        Err(error) => panic!("{error:?}"),
    }
}

#[test]
fn the_first_answer_wins_and_is_remembered() {
    let mut client = BridgeClient::new(None);
    let found = vec![b"/tmp/a".to_vec(), b"/tmp/b".to_vec(), b"/tmp//a".to_vec()];
    assert_eq!(client.candidates(found), vec![b"/tmp/a".to_vec(), b"/tmp/b".to_vec()]);

    let attempt = start(&["/tmp/a", "/tmp/b", "/tmp/c"]);
    assert_eq!(attempt.socket(), b"/tmp/a");
    let attempt = match client.upload(attempt, Err(BridgeError::Closed)) {
        UploadStep::Retry(attempt) => attempt,
        _ => panic!("one refusal is not the end"),
    };
    assert_eq!(attempt.socket(), b"/tmp/b");
    match client.upload(attempt, Ok("x/y".to_string())) {
        UploadStep::Resolve(path) => assert_eq!(path, "x/y"),
        _ => panic!("an answer is the end"),
    }
    let found = vec![b"/tmp/a".to_vec(), b"/tmp/./b".to_vec()];
    assert_eq!(client.candidates(found), vec![b"/tmp/a".to_vec(), b"/tmp/./b".to_vec()]);
    assert_eq!(client.candidates(vec![]), vec![b"/tmp/b".to_vec()]);
    let found = vec![b"/tmp/c".to_vec()];
    assert_eq!(client.candidates(found), vec![b"/tmp/c".to_vec(), b"/tmp/b".to_vec()]);
}

#[test]
fn a_newer_socket_is_tried_before_the_one_that_answered() {
    let mut client = BridgeClient::new(None);
    client.upload(start(&["/tmp/agentdrop-old.sock"]), Ok("x".to_string()));
    let found = discover_bridge_sockets(vec![
        entry(Some("agentdrop-old.sock"), true, Some(1)),
        entry(Some("agentdrop-new.sock"), true, Some(2)),
    ]);
    let sockets = client.candidates(found);
    assert_eq!(
        sockets,
        vec![b"/tmp/agentdrop-new.sock".to_vec(), b"/tmp/agentdrop-old.sock".to_vec()]
    );
    let attempt = match UploadAttempt::start(sockets) {
        Ok(attempt) => attempt,
        Err(error) => panic!("{error:?}"),
    };
    assert_eq!(attempt.socket(), b"/tmp/agentdrop-new.sock");
    client.upload(attempt, Ok("y".to_string()));
    assert_eq!(client.candidates(vec![]), vec![b"/tmp/agentdrop-new.sock".to_vec()]);
}

#[test]
fn the_last_error_counts() {
    let mut client = BridgeClient::new(None);
    let attempt = start(&["/tmp/a", "/tmp/b"]);
    let attempt = match client.upload(attempt, Err(BridgeError::Closed)) {
        UploadStep::Retry(attempt) => attempt,
        _ => panic!("one refusal is not the end"),
    };
    match client.upload(attempt, Err(BridgeError::NoPath)) {
        UploadStep::Fail(error) => assert_eq!(error, BridgeError::NoPath),
        _ => panic!("no socket is left"),
    }
    assert!(client.candidates(vec![]).is_empty());
    match UploadAttempt::start(vec![]) {
        Ok(_) => panic!("there is nothing to try"),
        Err(error) => assert_eq!(error, BridgeError::NoSocket),
    }
}

#[test]
fn a_request_carries_path_and_version() {
    assert_eq!(
        upload_request("C:\\a"),
        UploadRequest { version: 1, path: "C:\\a".to_string() }
    );
}

#[test]
fn a_reply_line_holds_a_document() {
    assert_eq!(response_document(""), Err(BridgeError::Closed));
    assert_eq!(response_document("{} \r\n"), Ok("{}"));
    assert_eq!(response_document("\n"), Ok(""));
}

#[test]
fn replies_are_understood() {
    let path = || Some("a".to_string());
    let error = || Some("e".to_string());
    let reply = |version: u32, remote_relative_path: Option<String>, error: Option<String>| {
        request_upload(UploadResponse { version, remote_relative_path, error })
    };
    assert_eq!(reply(1, path(), None), Ok("a".to_string()));
    assert_eq!(reply(1, path(), error()), Err(BridgeError::Refused("e".to_string())));
    assert_eq!(reply(1, None, error()), Err(BridgeError::Refused("e".to_string())));
    assert_eq!(reply(1, None, None), Err(BridgeError::NoPath));
    assert_eq!(reply(2, path(), error()), Err(BridgeError::VersionMismatch));
    assert_eq!(reply(0, None, None), Err(BridgeError::VersionMismatch));
}

#[test]
fn remote_paths_stay_below_home() {
    let home = || Some(b"/home/me".to_vec());
    let resolved = resolve_remote_path(".cache/agentdrop/files/s/r/a b..png", home());
    assert_eq!(resolved, Ok(b"/home/me/.cache/agentdrop/files/s/r/a b..png".to_vec()));
    assert_eq!(resolve_remote_path("a", Some(b"/".to_vec())), Ok(b"/a".to_vec()));
    assert_eq!(resolve_remote_path("a", Some(vec![])), Ok(b"a".to_vec()));
    assert_eq!(resolve_remote_path("", home()), Ok(b"/home/me/".to_vec()));
    assert_eq!(resolve_remote_path("...", home()), Ok(b"/home/me/...".to_vec()));
    for unsafe_path in ["/etc/passwd", "..", "../a", "a/../b", "a/..", "a//../b", "./.."] {
        assert_eq!(
            resolve_remote_path(unsafe_path, home()),
            Err(BridgeError::UnsafePath(unsafe_path.to_string()))
        );
        assert_eq!(
            resolve_remote_path(unsafe_path, None),
            Err(BridgeError::UnsafePath(unsafe_path.to_string()))
        );
    }
    assert_eq!(resolve_remote_path("a", None), Err(BridgeError::HomeNotSet));
}

#[test]
fn resolved_paths_agree_with_the_system() {
    for home in ["/home/me", "/home/me/", "/", "", "rel"] {
        for relative in ["a", "a/b/", "", "./a", "a//b", ".cache/x"] {
            let expected = std::path::PathBuf::from(home).join(relative);
            let resolved = resolve_remote_path(relative, Some(home.as_bytes().to_vec()));
            assert_eq!(
                resolved,
                Ok(expected.to_string_lossy().into_owned().into_bytes()),
                "{relative} below {home}"
            );
        }
    }
}

#[test]
fn paths_are_compared_by_component() {
    let paths = [
        "", "/", ".", "./", "a", "./a", "a/.", "a/", "/a", "//a", "/./a", "/a/b", "/a//b/", "a/b",
        "a/./b", "..", "a/..", "./.", "././a",
    ];
    for left in paths {
        let a = std::path::Path::new(left);
        assert_eq!(absolute(left.as_bytes()), a.is_absolute(), "{left}");
        let climbs = a.components().any(|part| part == std::path::Component::ParentDir);
        assert_eq!(has_parent_component(left.as_bytes()), climbs, "{left}");
        for right in paths {
            let b = std::path::Path::new(right);
            assert_eq!(
                paths_match(left.as_bytes(), right.as_bytes()),
                a == b,
                "{left} and {right}"
            );
        }
    }
}

#[test]
fn bridge_errors_have_texts() {
    let text = |error: BridgeError| error.message();
    assert_eq!(
        text(BridgeError::NoSocket),
        "no agentdrop bridge socket found; connect with `agentdrop connect <host>`"
    );
    assert_eq!(text(BridgeError::Io("broken pipe".to_string())), "broken pipe");
    assert_eq!(text(BridgeError::Closed), "upload bridge closed without a response");
    assert_eq!(text(BridgeError::VersionMismatch), "upload bridge protocol mismatch");
    assert_eq!(text(BridgeError::Refused("no".to_string())), "no");
    assert_eq!(text(BridgeError::NoPath), "upload bridge returned no remote path");
    assert_eq!(
        text(BridgeError::UnsafePath("../a".to_string())),
        "bridge returned unsafe relative path: ../a"
    );
    assert_eq!(text(BridgeError::HomeNotSet), "HOME is not set on remote host");
}

use agentdrop::argv::Argument;
use agentdrop::connect::{
    failure_text, finish_upload, handle_bridge_request, handle_clipboard_image_request,
    interactive_argv, message_line, plan_session, plan_upload, remote_socket,
    remote_upload_directory, request_document, reverse_forward, run_bridge, session_exit_code,
    upload_local_file, upload_reply, BridgeAction, BridgeEvent, BridgeStep, ClipboardAction,
    CommandOutput, LaunchError, LocalFile, RequestError, ResolvedFile, UploadError,
    MAX_REQUEST_BYTES,
};
use agentdrop::protocol::{BridgeRequest, BridgeResponse, UploadResponse, PROTOCOL_VERSION};
use uuid::Uuid;

#[test]
fn reverse_forward_uses_remote_unix_socket() {
    let session = "0123456789abcdef";
    let socket = remote_socket(session);
    assert_eq!(socket, format!("/tmp/agentdrop-{session}.sock"));
    let spec = reverse_forward(session, 43210);
    assert_eq!(spec, "/tmp/agentdrop-0123456789abcdef.sock:127.0.0.1:43210");
}

#[test]
fn remote_upload_directory_contains_no_shell_metacharacters() {
    let session = Uuid::new_v4().simple().to_string();
    let request = Uuid::new_v4().simple().to_string();
    let text = remote_upload_directory(&session, &request);
    assert_eq!(text, format!(".cache/agentdrop/files/{session}/{request}"));
    assert!(text.bytes().all(|b| b.is_ascii_alphanumeric() || b"./_-".contains(&b)));
}

/// Whether `id` is a version 4 UUID in simple notation.
fn is_identifier(id: &str) -> bool {
    id.len() == 32
        && id.bytes().all(|b| b.is_ascii_digit() || (b'a'..=b'f').contains(&b))
        && id.as_bytes()[12] == b'4'
        && b"89ab".contains(&id.as_bytes()[16])
}

/// A word of a command line.
fn word(text: &str) -> Argument<u32> {
    Argument::Text(text.to_string())
}

#[test]
fn a_session_command_line_is_complete() {
    assert_eq!(
        interactive_argv(vec![7_u32, 8], "dev", "ab", 0),
        vec![
            Argument::Given(7),
            Argument::Given(8),
            word("-o"),
            word("EnableDragFile=no"),
            word("-o"),
            word("StreamLocalBindUnlink=yes"),
            word("-o"),
            word("StreamLocalBindMask=0177"),
            word("-R"),
            word("/tmp/agentdrop-ab.sock:127.0.0.1:0"),
            word("dev"),
        ]
    );
}

#[test]
fn a_session_has_a_fresh_identifier() {
    let plan = plan_session(vec![1_u32], "user@example.com", 65535);
    assert!(is_identifier(&plan.session_id));
    assert_eq!(
        plan.argv,
        interactive_argv(vec![1_u32], "user@example.com", &plan.session_id, 65535)
    );
    let other = plan_session(vec![1_u32], "user@example.com", 65535);
    assert_ne!(plan.session_id, other.session_id);
}

#[test]
fn a_session_ends_as_its_terminal_program_did() {
    assert_eq!(session_exit_code(Some(0)), 0);
    assert_eq!(session_exit_code(Some(255)), 255);
    assert_eq!(session_exit_code(None), 1);
}

#[test]
fn a_bridge_runs_until_the_session_ends() {
    assert_eq!(run_bridge(BridgeEvent::Ready { stop: false }), BridgeStep::Accept);
    assert_eq!(run_bridge(BridgeEvent::Ready { stop: true }), BridgeStep::Stop);
    assert_eq!(run_bridge(BridgeEvent::Connection), BridgeStep::Serve);
    assert_eq!(run_bridge(BridgeEvent::WouldBlock), BridgeStep::Wait(40));
    assert_eq!(run_bridge(BridgeEvent::Failed), BridgeStep::Stop);
}

#[test]
fn request_lines_are_bounded() {
    assert_eq!(request_document(""), Err(RequestError::Empty));
    assert_eq!(request_document("{} \t\r\n"), Ok("{}"));
    assert_eq!(request_document("\n"), Ok(""));
    let longest = "x".repeat(MAX_REQUEST_BYTES);
    assert_eq!(request_document(&longest), Ok(longest.as_str()));
    let too_long = "x".repeat(MAX_REQUEST_BYTES + 1);
    assert_eq!(request_document(&too_long), Err(RequestError::TooLarge));
    let wide = "\u{e9}".repeat(MAX_REQUEST_BYTES / 2 + 1);
    assert_eq!(request_document(&wide), Err(RequestError::TooLarge));
    assert_eq!(MAX_REQUEST_BYTES, 64 * 1024);
}

#[test]
fn a_message_line_is_received() {
    let line = message_line("{\"version\":1}");
    assert_eq!(line, "{\"version\":1}\n");
    assert_eq!(request_document(&line), Ok("{\"version\":1}"));
}

#[test]
fn requests_of_this_version_are_acted_on() {
    let upload = BridgeRequest::UploadPath { version: PROTOCOL_VERSION, path: "/a".to_string() };
    assert_eq!(upload.version(), 1);
    assert_eq!(handle_bridge_request(upload), BridgeAction::Upload("/a".to_string()));
    let image = BridgeRequest::ClipboardImage { version: PROTOCOL_VERSION };
    assert_eq!(image.version(), 1);
    assert_eq!(handle_bridge_request(image), BridgeAction::CaptureImage);
}

#[test]
fn requests_of_other_versions_are_refused() {
    let refused = |version: u32| {
        BridgeAction::Respond(BridgeResponse {
            version: 1,
            remote_relative_path: None,
            no_clipboard_image: false,
            error: Some(format!("protocol version mismatch: client={version}, bridge=1")),
        })
    };
    let upload = BridgeRequest::UploadPath { version: 20, path: "/a".to_string() };
    assert_eq!(handle_bridge_request(upload), refused(20));
    let image = BridgeRequest::ClipboardImage { version: 0 };
    assert_eq!(handle_bridge_request(image), refused(0));
}

#[test]
fn clipboard_requests_are_answered() {
    assert_eq!(
        handle_clipboard_image_request(Ok(Some(5_u32))),
        ClipboardAction::Upload(5)
    );
    assert_eq!(
        handle_clipboard_image_request::<u32>(Ok(None)),
        ClipboardAction::Respond(BridgeResponse::no_clipboard_image())
    );
    assert_eq!(
        handle_clipboard_image_request::<u32>(Err("no display".to_string())),
        ClipboardAction::Respond(BridgeResponse::failure("no display".to_string()))
    );
}

#[test]
fn responses_name_the_version() {
    let success = UploadResponse::success("a/b".to_string());
    assert_eq!(success.version, PROTOCOL_VERSION);
    assert_eq!(success.remote_relative_path.as_deref(), Some("a/b"));
    assert_eq!(success.error, None);
    let failure = UploadResponse::failure("why".to_string());
    assert_eq!(failure.version, PROTOCOL_VERSION);
    assert_eq!(failure.remote_relative_path, None);
    assert_eq!(failure.error.as_deref(), Some("why"));
    let nothing = BridgeResponse::no_clipboard_image();
    assert!(nothing.no_clipboard_image);
    assert_eq!(nothing.remote_relative_path, None);
    assert_eq!(nothing.error, None);
}

/// A regular file that can be uploaded.
fn local_file(path: u32, name: &str) -> LocalFile<u32> {
    LocalFile {
        display: "/tmp/shot.png".to_string(),
        is_absolute: true,
        is_file: true,
        resolved: Ok(ResolvedFile { path, name: Some(name.to_string()) }),
    }
}

#[test]
fn an_upload_is_planned() {
    let plan = match plan_upload(local_file(9, "shot.png"), vec![1, 2], "dev", "s", "r") {
        Ok(plan) => plan,
        Err(error) => panic!("{error:?}"),
    };
    assert_eq!(
        plan.argv,
        vec![
            Argument::Given(1),
            Argument::Given(2),
            word("-o"),
            word("EnableDragFile=no"),
            word("--upload-file"),
            Argument::Given(9),
            word("dev"),
            word(
                "umask 077; d=\"$HOME/.cache/agentdrop/files/s/r\"; mkdir -p -- \"$d\" && exec trz -y -q \"$d/\""
            ),
        ]
    );
    assert_eq!(plan.remote_relative_path, ".cache/agentdrop/files/s/r/shot.png");
}

#[test]
fn each_upload_has_a_directory_of_its_own() {
    let session = "0123456789abcdef0123456789abcdef";
    let mut seen: Vec<String> = Vec::new();
    for _ in 0..2 {
        let plan = match upload_local_file(local_file(9, "a b"), vec![], "dev", session) {
            Ok(plan) => plan,
            Err(error) => panic!("{error:?}"),
        };
        let front = format!(".cache/agentdrop/files/{session}/");
        let rest = plan.remote_relative_path.strip_prefix(&front).map(str::to_string);
        let rest = rest.unwrap_or_default();
        let request = rest.strip_suffix("/a b").unwrap_or_default().to_string();
        assert!(is_identifier(&request));
        seen.push(request);
    }
    assert_ne!(seen[0], seen[1]);
    assert_ne!(
        remote_upload_directory(session, &seen[0]),
        remote_upload_directory(session, &seen[1])
    );
}

#[test]
fn uploads_are_refused_for_the_first_reason() {
    let refusal = |file: LocalFile<u32>| match upload_local_file(file, vec![], "dev", "s") {
        Ok(_) => panic!("an upload was planned"),
        Err(error) => error,
    };
    let mut relative = local_file(9, "shot.png");
    relative.is_absolute = false;
    relative.is_file = false;
    let error = refusal(relative);
    assert_eq!(error, UploadError::NotAbsolute("/tmp/shot.png".to_string()));
    assert_eq!(error.message(), "local path is not absolute: /tmp/shot.png");

    let mut missing = local_file(9, "shot.png");
    missing.is_file = false;
    missing.resolved = Err("not found".to_string());
    let error = refusal(missing);
    assert_eq!(error, UploadError::NoSuchFile("/tmp/shot.png".to_string()));
    assert_eq!(error.message(), "local file does not exist: /tmp/shot.png");

    let mut unresolved = local_file(9, "shot.png");
    unresolved.resolved = Err("permission denied".to_string());
    let error = refusal(unresolved);
    assert_eq!(error.message(), "failed to resolve /tmp/shot.png: permission denied");

    let mut unnamed = local_file(9, "shot.png");
    unnamed.resolved = Ok(ResolvedFile { path: 9, name: None });
    let error = refusal(unnamed);
    assert_eq!(error, UploadError::NameNotUtf8);
    assert_eq!(error.message(), "file name is not valid UTF-8");
}

/// A run of the terminal program.
fn run(success: bool, stdout: &[u8], stderr: &[u8]) -> Result<CommandOutput, LaunchError> {
    Ok(CommandOutput {
        success,
        status: "exit status: 3".to_string(),
        stdout: stdout.to_vec(),
        stderr: stderr.to_vec(),
    })
}

#[test]
fn a_finished_upload_is_reported() {
    let result = finish_upload("a/b".to_string(), run(true, b"noise", b"noise"));
    assert_eq!(result, Ok("a/b".to_string()));
    assert_eq!(upload_reply(result), BridgeResponse::success("a/b".to_string()));
}

#[test]
fn a_failed_upload_is_explained() {
    let failed = finish_upload("a/b".to_string(), run(false, b" \n", b"\n no route \xff\n"));
    assert_eq!(
        upload_reply(failed),
        BridgeResponse::failure(
            "tssh upload failed with exit status: 3: no route \u{fffd}".to_string()
        )
    );
    let failed = finish_upload("a/b".to_string(), run(false, b"\thalf\t", b""));
    assert_eq!(
        upload_reply(failed),
        BridgeResponse::failure("tssh upload failed with exit status: 3:  (half)".to_string())
    );
    let launch = LaunchError { program: "tssh".to_string(), reason: "not found".to_string() };
    let failed = finish_upload("a/b".to_string(), Err(launch));
    assert_eq!(
        upload_reply(failed),
        BridgeResponse::failure(
            "failed to start tssh for side-channel upload: not found".to_string()
        )
    );
}

#[test]
fn a_failure_text_shows_what_was_printed() {
    assert_eq!(
        failure_text("signal: 9", " e ", " o\u{3000}"),
        "tssh upload failed with signal: 9: e (o)"
    );
    assert_eq!(failure_text("s", "", "\n"), "tssh upload failed with s: ");
}

use agentdrop::argv::Argument;
use agentdrop::bridge::{request_upload, resolve_remote_path, BridgeError};
use agentdrop::connect::{
    finish_upload, plan_upload, upload_reply, CommandOutput, LocalFile, ResolvedFile,
};
use agentdrop::paste::{BracketedPasteParser, InputEvent};
use agentdrop::protocol::UploadResponse;
use agentdrop::proxy::{
    after_lookup, after_upload, agent_argv, agent_command, agent_exit_code, forward_event,
    forward_events, initial_size, input_proxy_step, is_windows_absolute_path, local_path_from_paste,
    replacement_paste, resize, strip_matching_quotes, Delivery, DroppedFile, ForwardAction,
    InputSignal, LocalPathPaste, PasteTarget, AMBIGUOUS_ESCAPE_TIMEOUT_MS,
};
use agentdrop::shell::shell_quote;

fn word(text: &str) -> Argument<&str> {
    Argument::Text(text.to_string())
}

#[test]
fn zsh_mode_executes_agent_as_positional_command() {
    let command = vec!["codex", "--model", "gpt-5"];
    let argv = agent_argv(command, true);
    assert_eq!(
        argv,
        vec![
            word("zsh"),
            word("-lic"),
            word("\"$@\""),
            word("agentdrop-proxy"),
            Argument::Given("codex"),
            Argument::Given("--model"),
            Argument::Given("gpt-5"),
        ]
    );
}

#[test]
fn direct_mode_keeps_original_argv() {
    let command = vec!["codex", "resume"];
    assert_eq!(
        agent_argv(command, false),
        vec![Argument::Given("codex"), Argument::Given("resume")]
    );
}

#[test]
fn recognizes_windows_drive_and_unc_paths() {
    assert!(is_windows_absolute_path(r"C:\Users\me\shot.png"));
    assert!(is_windows_absolute_path("D:/images/shot.png"));
    assert!(is_windows_absolute_path(r"\\server\share\shot.png"));
    assert!(!is_windows_absolute_path("relative\\shot.png"));
}

#[test]
fn recognizes_windows_drop_without_remote_filesystem_lookup() {
    let paste = match local_path_from_paste(b"C:\\Users\\me\\shot.png ") {
        PasteTarget::Local(paste) => paste,
        _ => panic!("Windows drop should be treated as a local path"),
    };
    assert_eq!(paste.path, r"C:\Users\me\shot.png");
    assert!(paste.trailing_space);
}

#[test]
fn ignores_existing_remote_unix_path() {
    let path = format!("/tmp/agentdrop-remote-path-{}", uuid::Uuid::new_v4().simple());
    let payload = format!("{path} ");
    let drop = DroppedFile {
        local: LocalPathPaste { path, trailing_space: true },
        payload: payload.clone().into_bytes(),
    };
    let found = match forward_event(InputEvent::Paste(payload.clone().into_bytes())) {
        ForwardAction::LookUp(found) => found,
        _ => panic!("the remote host has to be asked first"),
    };
    assert_eq!(found, drop);
    assert_eq!(
        after_lookup(found, true),
        ForwardAction::Write(format!("\x1b[200~{payload}\x1b[201~").into_bytes())
    );
    assert_eq!(
        after_lookup(
            DroppedFile {
                local: LocalPathPaste { path: "/a".to_string(), trailing_space: false },
                payload: b"/a".to_vec(),
            },
            false
        ),
        ForwardAction::Upload(DroppedFile {
            local: LocalPathPaste { path: "/a".to_string(), trailing_space: false },
            payload: b"/a".to_vec(),
        })
    );
}

#[test]
fn quotes_posix_shell_arguments() {
    assert_eq!(shell_quote("/tmp/a b"), "'/tmp/a b'");
    assert_eq!(shell_quote("/tmp/a'b"), "'/tmp/a'\"'\"'b'");
}

#[test]
fn quotes_whatever_a_text_holds() {
    assert_eq!(shell_quote(""), "''");
    assert_eq!(shell_quote("'"), "''\"'\"''");
    assert_eq!(shell_quote("$HOME `x` \\ \" \u{e9}\n"), "'$HOME `x` \\ \" \u{e9}\n'");
}

#[test]
fn an_agent_needs_a_command() {
    assert_eq!(agent_command::<u32>(vec![], false), None);
    assert_eq!(agent_command::<u32>(vec![], true), None);
    assert_eq!(agent_command(vec!["codex"], false), Some(vec![Argument::Given("codex")]));
    assert_eq!(agent_command(vec!["a"], true).map(|argv| argv.len()), Some(5));
}

#[test]
fn the_terminal_size_follows() {
    assert_eq!(initial_size(Some((80, 24))), (80, 24));
    assert_eq!(initial_size(None), (120, 30));
    assert_eq!(resize((80, 24), Some((80, 24))), None);
    assert_eq!(resize((80, 24), Some((80, 25))), Some((80, 25)));
    assert_eq!(resize((80, 24), Some((24, 80))), Some((24, 80)));
    assert_eq!(resize((80, 24), None), None);
}

#[test]
fn exit_codes_keep_their_bits() {
    assert_eq!(agent_exit_code(0), 0);
    assert_eq!(agent_exit_code(130), 130);
    assert_eq!(agent_exit_code(0x7fff_ffff), i32::MAX);
    assert_eq!(agent_exit_code(0x8000_0000), i32::MIN);
    assert_eq!(agent_exit_code(u32::MAX), -1);
}

#[test]
fn windows_paths_need_a_drive_or_a_server() {
    for path in ["c:\\", "Z:/", "\\\\", "\\\\a"] {
        assert!(is_windows_absolute_path(path), "{path}");
    }
    for path in ["", "\\", "C:", "C:a", "1:/a", ":/a", "\u{e9}:/a", "/C:/", "\\/"] {
        assert!(!is_windows_absolute_path(path), "{path}");
    }
}

#[test]
fn quotes_are_stripped_in_pairs() {
    assert_eq!(strip_matching_quotes("'a b'"), "a b");
    assert_eq!(strip_matching_quotes("\"a\""), "a");
    assert_eq!(strip_matching_quotes("''"), "");
    assert_eq!(strip_matching_quotes("''a''"), "'a'");
    for plain in ["", "'", "\"", "'a", "a'", "'a\"", "\u{2019}a\u{2019}"] {
        assert_eq!(strip_matching_quotes(plain), plain);
    }
}

fn path(path: &str, trailing_space: bool) -> LocalPathPaste {
    LocalPathPaste { path: path.to_string(), trailing_space }
}

#[test]
fn pastes_are_told_apart() {
    let local = |payload: &[u8]| local_path_from_paste(payload);
    assert_eq!(local(b"/Users/me/a.png"), PasteTarget::LocalUnlessRemote(path("/Users/me/a.png", false)));
    assert_eq!(local(b"'/Users/me/a b.png' "), PasteTarget::LocalUnlessRemote(path("/Users/me/a b.png", true)));
    assert_eq!(local(b"\"C:/a\"\r\n"), PasteTarget::Local(path("C:/a", false)));
    assert_eq!(local(b"C:/a  "), PasteTarget::Local(path("C:/a ", true)));
    assert_eq!(local(b"C:/a \n"), PasteTarget::Local(path("C:/a", true)));
    assert_eq!(local("/tmp/\u{e9}".as_bytes()), PasteTarget::LocalUnlessRemote(path("/tmp/\u{e9}", false)));
    let ordinary: [&[u8]; 11] = [
        b"",
        b"\r\n",
        b" ",
        b"hello",
        b"'' ",
        b"/a\n/b",
        b"/a\rb\n",
        b"~/a",
        b" /a",
        b"/a\xff",
        b"\xc0\xaf",
    ];
    for payload in ordinary {
        assert_eq!(local(payload), PasteTarget::NotLocal, "{payload:?}");
    }
}

#[test]
fn line_ends_and_quotes_do_not_count() {
    let plain = local_path_from_paste(b"C:\\a");
    assert_eq!(local_path_from_paste(b"C:\\a\n"), plain);
    assert_eq!(local_path_from_paste(b"C:\\a\r\n\r"), plain);
    assert_eq!(local_path_from_paste(b"'C:\\a'"), plain);
    assert_eq!(local_path_from_paste(b"\"C:\\a\""), plain);
    assert_eq!(local_path_from_paste(b"'C:\\a b' "), local_path_from_paste(b"C:\\a b "));
}

#[test]
fn events_are_forwarded_or_uploaded() {
    assert_eq!(
        forward_event(InputEvent::Bytes(b"/etc/x".to_vec())),
        ForwardAction::Write(b"/etc/x".to_vec())
    );
    assert_eq!(
        forward_event(InputEvent::Paste(b"hello".to_vec())),
        ForwardAction::Write(b"\x1b[200~hello\x1b[201~".to_vec())
    );
    assert_eq!(
        forward_event(InputEvent::Paste(b"C:\\a.png ".to_vec())),
        ForwardAction::Upload(DroppedFile {
            local: path("C:\\a.png", true),
            payload: b"C:\\a.png ".to_vec(),
        })
    );
}

#[test]
fn ordinary_input_is_unchanged() {
    let input = b"ls\x1b[A\x1b[200~echo hi\x1b[201~\x01\x1b[200~\x1b[201~";
    let mut parser = BracketedPasteParser::default();
    let mut wire: Vec<u8> = Vec::new();
    for action in forward_events(parser.feed(input)) {
        match action {
            ForwardAction::Write(bytes) => wire.extend(bytes),
            _ => panic!("nothing was dropped"),
        }
    }
    assert_eq!(wire, input.to_vec());
    let drop = vec![
        InputEvent::Bytes(b"a".to_vec()),
        InputEvent::Paste(b"/b".to_vec()),
        InputEvent::Paste(b"c".to_vec()),
    ];
    let actions = forward_events(drop);
    assert_eq!(actions.len(), 3);
    assert_eq!(actions[0], ForwardAction::Write(b"a".to_vec()));
    assert!(matches!(actions[1], ForwardAction::LookUp(_)));
    assert_eq!(actions[2], ForwardAction::Write(b"\x1b[200~c\x1b[201~".to_vec()));
}

fn dropped(trailing_space: bool) -> DroppedFile {
    DroppedFile { local: path("C:\\a.png", trailing_space), payload: b"C:\\a.png ".to_vec() }
}

#[test]
fn the_agent_gets_the_remote_path() {
    assert_eq!(
        after_upload(dropped(true), Ok(b"/home/me/a.png".to_vec())),
        Delivery { write: b"\x1b[200~/home/me/a.png \x1b[201~".to_vec(), notice: None }
    );
    assert_eq!(
        after_upload(dropped(false), Ok(b"/h/\xff".to_vec())),
        Delivery {
            write: "\x1b[200~/h/\u{fffd}\x1b[201~".as_bytes().to_vec(),
            notice: None
        }
    );
    assert_eq!(replacement_paste("/a".to_string(), false), b"\x1b[200~/a\x1b[201~".to_vec());
    assert_eq!(replacement_paste("/a".to_string(), true), b"\x1b[200~/a \x1b[201~".to_vec());
}

#[test]
fn a_failed_upload_leaves_the_paste_alone() {
    assert_eq!(
        after_upload(dropped(true), Err(BridgeError::NoPath)),
        Delivery {
            write: b"\x1b[200~C:\\a.png \x1b[201~".to_vec(),
            notice: Some(
                "\r\n[agentdrop] upload failed: upload bridge returned no remote path\r\n"
                    .to_string()
            ),
        }
    );
}

#[test]
fn terminal_input_is_forwarded_whole() {
    assert_eq!(AMBIGUOUS_ESCAPE_TIMEOUT_MS, 40);
    let mut parser = BracketedPasteParser::default();
    let (events, more) = input_proxy_step(&mut parser, InputSignal::Chunk(b"a\x1b[".to_vec()));
    assert_eq!(events, vec![InputEvent::Bytes(b"a".to_vec())]);
    assert!(more);
    let (events, more) = input_proxy_step(&mut parser, InputSignal::Idle);
    assert_eq!(events, vec![InputEvent::Bytes(b"\x1b[".to_vec())]);
    assert!(more);
    let (events, more) = input_proxy_step(&mut parser, InputSignal::Idle);
    assert!(events.is_empty());
    assert!(more);
    let (events, _) = input_proxy_step(&mut parser, InputSignal::Chunk(b"\x1b[200~p".to_vec()));
    assert!(events.is_empty());
    let (events, _) = input_proxy_step(&mut parser, InputSignal::Idle);
    assert!(events.is_empty());
    let (events, more) = input_proxy_step(&mut parser, InputSignal::Closed);
    assert_eq!(events, vec![InputEvent::Bytes(b"\x1b[200~p".to_vec())]);
    assert!(!more);
}

#[test]
fn a_dropped_file_reaches_the_agent() {
    let mut parser = BracketedPasteParser::default();
    let mut events = parser.feed(b"\x1b[200~C:\\Users\\me\\Desktop\\shot.png \x1b[201~");
    let file = match forward_event(events.remove(0)) {
        ForwardAction::Upload(file) => file,
        _ => panic!("a Windows path is uploaded"),
    };
    let local = LocalFile {
        display: file.local.path.clone(),
        is_absolute: true,
        is_file: true,
        resolved: Ok(ResolvedFile { path: "shot", name: Some("shot.png".to_string()) }),
    };
    let plan = match plan_upload(local, vec![], "dev", "session", "request") {
        Ok(plan) => plan,
        Err(error) => panic!("{error:?}"),
    };
    let output = CommandOutput {
        success: true,
        status: "exit status: 0".to_string(),
        stdout: vec![],
        stderr: vec![],
    };
    let reply = upload_reply(finish_upload(plan.remote_relative_path, Ok(output)));
    let response = UploadResponse {
        version: reply.version,
        remote_relative_path: reply.remote_relative_path,
        error: reply.error,
    };
    let relative = match request_upload(response) {
        Ok(relative) => relative,
        Err(error) => panic!("{error:?}"),
    };
    let resolved = resolve_remote_path(&relative, Some(b"/home/me".to_vec()));
    assert_eq!(
        after_upload(file, resolved),
        Delivery {
            write: b"\x1b[200~/home/me/.cache/agentdrop/files/session/request/shot.png \x1b[201~"
                .to_vec(),
            notice: None,
        }
    );
}

use agentdrop::argv::Argument;
use agentdrop::connect::{CommandOutput, LaunchError};
use agentdrop::uploader::{
    finish_transfer, remote_directory, run_failure_text, LocalUpload, Uploader, UploaderError,
    UploaderStep,
};

fn file(is_file: bool, name: Option<&str>) -> LocalUpload<&'static str> {
    LocalUpload {
        path: "/tmp/shot.png",
        display: "/tmp/shot.png".to_string(),
        is_file,
        name: name.map(str::to_string),
    }
}

fn run(success: bool, stdout: &[u8], stderr: &[u8]) -> Result<CommandOutput, LaunchError> {
    Ok(CommandOutput {
        success,
        status: "exit status: 1".to_string(),
        stdout: stdout.to_vec(),
        stderr: stderr.to_vec(),
    })
}

fn not_found() -> LaunchError {
    LaunchError { program: "tssh".to_string(), reason: "not found".to_string() }
}

fn uploader() -> Uploader<&'static str> {
    Uploader::new("tssh", "dev".to_string(), vec!["-A", "-v"])
}

/// The arguments of the run that the upload of a file needs next.
fn make_directory(uploader: &Uploader<&'static str>) -> Vec<Argument<&'static str>> {
    match uploader.upload(&file(true, Some("shot.png"))) {
        Ok(UploaderStep::MakeDirectory(argv)) => argv,
        _ => panic!("the directory has to be made first"),
    }
}

#[test]
fn every_run_starts_with_the_given_options() {
    let uploader = uploader();
    let (program, argv) = uploader.base_command();
    assert_eq!(program, "tssh");
    assert_eq!(argv, vec![Argument::Given("-A"), Argument::Given("-v")]);
}

#[test]
fn the_directory_is_made_first() {
    let first = make_directory(&uploader());
    assert_eq!(first.len(), 4);
    assert_eq!(first[0], Argument::Given("-A"));
    assert_eq!(first[1], Argument::Given("-v"));
    assert_eq!(first[2], Argument::Text("dev".to_string()));
    let command = match &first[3] {
        Argument::Text(command) => command.clone(),
        Argument::Given(_) => panic!("the command is a word of this program"),
    };
    let id = command
        .strip_prefix("umask 077; d=\"$HOME/.cache/agentdrop/")
        .and_then(|rest| {
            rest.strip_suffix("\"; mkdir -p -- \"$d\" && cd -- \"$d\" && pwd -P")
        })
        .unwrap_or_default();
    assert_eq!(id.len(), 32);
    assert!(id.bytes().all(|b| b.is_ascii_digit() || (b'a'..=b'f').contains(&b)));
    assert_eq!(id.as_bytes()[12], b'4');
    assert_ne!(make_directory(&uploader()), first);
}

#[test]
fn the_directory_is_made_once() {
    let mut uploader = uploader();
    let made = uploader.ensure_remote_dir(run(true, b"welcome\n/home/me/it's \r\n\n", b""));
    assert_eq!(made, Ok("/home/me/it's".to_string()));
    for run in [run(true, b"/other\n", b""), run(false, b"", b"denied"), Err(not_found())] {
        assert_eq!(uploader.ensure_remote_dir(run), Ok("/home/me/it's".to_string()));
    }
    for _ in 0..2 {
        match uploader.upload(&file(true, Some("a b.png"))) {
            Ok(UploaderStep::Transfer { argv, remote_path }) => {
                assert_eq!(
                    argv,
                    vec![
                        Argument::Given("-A"),
                        Argument::Given("-v"),
                        Argument::Text("--upload-file".to_string()),
                        Argument::Given("/tmp/shot.png"),
                        Argument::Text("dev".to_string()),
                        Argument::Text("trz -q -y '/home/me/it'\"'\"'s'".to_string()),
                    ]
                );
                assert_eq!(remote_path, "/home/me/it's/a b.png");
            }
            _ => panic!("the directory is known"),
        }
    }
}

#[test]
fn only_regular_files_are_uploaded() {
    let uploader = uploader();
    let refusal = |file: LocalUpload<&'static str>| match uploader.upload(&file) {
        Ok(_) => panic!("a step was planned"),
        Err(error) => error,
    };
    let error = refusal(file(false, None));
    assert_eq!(error, UploaderError::NotAFile("/tmp/shot.png".to_string()));
    assert_eq!(error.message(), "only regular files are supported: /tmp/shot.png");
    let error = refusal(file(true, None));
    assert_eq!(error, UploaderError::NameNotUnicode);
    assert_eq!(error.message(), "local file name is not valid Unicode");
}

#[test]
fn a_failed_directory_changes_nothing() {
    let mut uploader = uploader();
    let before = make_directory(&uploader);
    let mut failure = |run: Result<CommandOutput, LaunchError>| {
        let text = match uploader.ensure_remote_dir(run) {
            Ok(_) => panic!("there is no directory"),
            Err(error) => error.message(),
        };
        assert_eq!(make_directory(&uploader), before);
        text
    };
    assert_eq!(failure(Err(not_found())), "failed to launch tssh");
    assert_eq!(
        failure(run(false, b"/home/me", b" denied \xff\n")),
        "failed to create remote drop directory with exit status: 1: denied \u{fffd}"
    );
    assert_eq!(
        failure(run(true, b"/home/\xff", b"")),
        "remote directory response was not valid UTF-8"
    );
    assert_eq!(
        failure(run(true, b"home/me\n", b"")),
        "tssh did not return an absolute remote directory"
    );
    let made = uploader.ensure_remote_dir(run(true, b"/home/me\n", b""));
    assert_eq!(made, Ok("/home/me".to_string()));
}

#[test]
fn the_last_absolute_line_counts() {
    let found = |output: &str| remote_directory(output);
    assert_eq!(found("/a"), Some("/a".to_string()));
    assert_eq!(found("/a\n/b\nbye\n"), Some("/b".to_string()));
    assert_eq!(found("\u{3000}/a b\t\r\n\n"), Some("/a b".to_string()));
    assert_eq!(found("x/a\n"), None);
    assert_eq!(found(""), None);
}

#[test]
fn a_transfer_is_reported() {
    let done = |run: Result<CommandOutput, LaunchError>| finish_transfer("/a/b".to_string(), run);
    assert_eq!(done(run(true, b"x", b"y")), Ok("/a/b".to_string()));
    assert_eq!(done(Err(not_found())), Err(UploaderError::NotLaunched(not_found())));
    match done(run(false, b"", b"\nfull disk\n")) {
        Ok(_) => panic!("the transfer failed"),
        Err(error) => assert_eq!(
            error.message(),
            "tssh upload failed with exit status: 1: full disk"
        ),
    }
    assert_eq!(run_failure_text("it failed with ", "x", " y "), "it failed with x: y");
}

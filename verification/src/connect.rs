//! The local side: the interactive session and the upload bridge beside it.
use vstd::prelude::*;
use vstd::utf8::encode_utf8;
use crate::argv::{argument_models, extend_given, given, push_given, push_text, words, Argument, ArgumentModel};
use crate::identifier::{fresh_identifier, is_identifier};
use crate::protocol::{version_of, BridgeRequest, BridgeResponse, PROTOCOL_VERSION};
use crate::text::{decimal, decimal_digits, lossy_chars, lossy_text, trim, trim_end, trimmed, trimmed_end};

verus! {

/// The socket that a session listens on at the remote host.
pub open spec fn socket_path(session_id: Seq<char>) -> Seq<char> {
    "/tmp/agentdrop-"@ + session_id + ".sock"@
}

/// The forwarding from that socket back to a local port.
pub open spec fn forwarding(session_id: Seq<char>, port: u16) -> Seq<char> {
    socket_path(session_id) + ":127.0.0.1:"@ + decimal_digits(port as nat)
}

/// The socket that a session listens on at the remote host.
pub fn remote_socket(session_id: &str) -> (path: String)
    ensures
        path@ == socket_path(session_id@),
{
    let mut path: String = "/tmp/agentdrop-".to_owned();
    path.append(session_id);
    path.append(".sock");
    path
}

/// The forwarding from the remote socket of a session back to a local port.
pub fn reverse_forward(session_id: &str, local_port: u16) -> (spec: String)
    ensures
        spec@ == forwarding(session_id@, local_port),
{
    let mut spec: String = remote_socket(session_id);
    spec.append(":127.0.0.1:");
    spec.append(decimal(local_port as u64).as_str());
    spec
}

/// The command line of the interactive session: the given options, native drag handling off,
/// a private socket forwarded back to the local port, and the destination.
pub open spec fn session_argv<T>(
    tssh_args: Seq<T>,
    destination: Seq<char>,
    session_id: Seq<char>,
    port: u16,
) -> Seq<ArgumentModel<T>> {
    given(tssh_args) + words(
        seq![
            "-o"@,
            "EnableDragFile=no"@,
            "-o"@,
            "StreamLocalBindUnlink=yes"@,
            "-o"@,
            "StreamLocalBindMask=0177"@,
            "-R"@,
            forwarding(session_id, port),
            destination,
        ],
    )
}

/// The arguments with which `tssh` is started for the interactive session.
pub fn interactive_argv<T>(
    tssh_args: Vec<T>,
    destination: &str,
    session_id: &str,
    local_port: u16,
) -> (argv: Vec<Argument<T>>)
    ensures
        argument_models(argv@) == session_argv(tssh_args@, destination@, session_id@, local_port),
{
    let mut argv: Vec<Argument<T>> = Vec::new();
    extend_given(&mut argv, tssh_args);
    push_text(&mut argv, "-o");
    push_text(&mut argv, "EnableDragFile=no");
    push_text(&mut argv, "-o");
    push_text(&mut argv, "StreamLocalBindUnlink=yes");
    push_text(&mut argv, "-o");
    push_text(&mut argv, "StreamLocalBindMask=0177");
    push_text(&mut argv, "-R");
    push_text(&mut argv, reverse_forward(session_id, local_port).as_str());
    push_text(&mut argv, destination);
    assert(argument_models(argv@) =~= session_argv(
        tssh_args@,
        destination@,
        session_id@,
        local_port,
    ));
    argv
}

/// A session that is about to start: its identifier and the arguments for `tssh`.
pub struct SessionPlan<T> {
    pub session_id: String,
    pub argv: Vec<Argument<T>>,
}

/// Plans an interactive session under a fresh identifier, once the bridge listens on
/// `local_port`.
pub fn plan_session<T>(tssh_args: Vec<T>, destination: &str, local_port: u16) -> (plan: SessionPlan<
    T,
>)
    ensures
        is_identifier(plan.session_id@),
        argument_models(plan.argv@) == session_argv(
            tssh_args@,
            destination@,
            plan.session_id@,
            local_port,
        ),
{
    let session_id: String = fresh_identifier();
    let argv: Vec<Argument<T>> = interactive_argv(
        tssh_args,
        destination,
        session_id.as_str(),
        local_port,
    );
    SessionPlan { session_id, argv }
}

/// The exit code of this program after `tssh` ended: that of `tssh`, or 1 where a signal
/// ended it.
pub fn session_exit_code(status: Option<i32>) -> (code: i32)
    ensures
        code == (match status {
            Some(code) => code,
            None => 1i32,
        }),
{
    match status {
        Some(code) => code,
        None => 1,
    }
}

/// What the bridge has seen last.
#[derive(Debug, PartialEq, Eq, Clone, Copy)]
pub enum BridgeEvent {
    /// The bridge is about to look for a connection; `stop` says whether the session ended.
    Ready { stop: bool },
    /// A client connected.
    Connection,
    /// Nobody has connected yet.
    WouldBlock,
    /// The listener failed.
    Failed,
}

/// What the bridge does next.
#[derive(Debug, PartialEq, Eq, Clone, Copy)]
pub enum BridgeStep {
    /// Look for a connection.
    Accept,
    /// Answer the client in a thread of its own, then be ready again.
    Serve,
    /// Wait this many milliseconds, then be ready again.
    Wait(u64),
    /// End the bridge.
    Stop,
}

/// How the bridge runs: it takes connections until the session ends or its listener fails.
pub fn run_bridge(event: BridgeEvent) -> (step: BridgeStep)
    ensures
        step == (match event {
            BridgeEvent::Ready { stop: true } => BridgeStep::Stop,
            BridgeEvent::Ready { stop: false } => BridgeStep::Accept,
            BridgeEvent::Connection => BridgeStep::Serve,
            BridgeEvent::WouldBlock => BridgeStep::Wait(40),
            BridgeEvent::Failed => BridgeStep::Stop,
        }),
{
    match event {
        BridgeEvent::Ready { stop } => if stop {
            BridgeStep::Stop
        } else {
            BridgeStep::Accept
        },
        BridgeEvent::Connection => BridgeStep::Serve,
        BridgeEvent::WouldBlock => BridgeStep::Wait(40),
        BridgeEvent::Failed => BridgeStep::Stop,
    }
}

/// The longest request line that a bridge reads, in bytes.
pub const MAX_REQUEST_BYTES: usize = 65536;

/// Why a request line is dropped without an answer.
#[derive(Debug, PartialEq, Eq, Clone, Copy)]
pub enum RequestError {
    Empty,
    TooLarge,
}

/// The JSON document in a request line. A client that closed the connection sent an empty
/// line; a line that is too long is refused; white space at the end does not count.
pub fn request_document(line: &str) -> (document: Result<&str, RequestError>)
    ensures
        match document {
            Ok(text) => 0 < encode_utf8(line@).len() <= MAX_REQUEST_BYTES && text@ == trimmed_end(
                line@,
            ),
            Err(RequestError::Empty) => encode_utf8(line@).len() == 0,
            Err(RequestError::TooLarge) => encode_utf8(line@).len() > MAX_REQUEST_BYTES,
        },
{
    let size: usize = line.as_bytes().len();
    if size == 0 {
        return Err(RequestError::Empty);
    }
    if size > MAX_REQUEST_BYTES {
        return Err(RequestError::TooLarge);
    }
    Ok(trim_end(line))
}

/// A JSON document as it goes over the wire: one line.
pub fn message_line(document: &str) -> (line: String)
    ensures
        line@ == document@.push('\n'),
{
    let mut line: String = document.to_owned();
    line.push('\n');
    line
}

/// What a bridge does about a request.
#[derive(Debug, PartialEq, Eq)]
pub enum BridgeAction {
    /// Answer at once.
    Respond(BridgeResponse),
    /// Upload the file at this path, then answer.
    Upload(String),
    /// Upload the image on the clipboard, then answer.
    CaptureImage,
}

/// The complaint about a request of another version.
pub open spec fn mismatch_text(version: u32) -> Seq<char> {
    "protocol version mismatch: client="@ + decimal_digits(version as nat) + ", bridge="@
        + decimal_digits(PROTOCOL_VERSION as nat)
}

/// Decides about a request: one of another version is refused, whatever it asks for.
pub fn handle_bridge_request(request: BridgeRequest) -> (action: BridgeAction)
    ensures
        version_of(request) != PROTOCOL_VERSION ==> {
            &&& action matches BridgeAction::Respond(response)
            &&& response.version == PROTOCOL_VERSION
            &&& response.remote_relative_path is None
            &&& !response.no_clipboard_image
            &&& response.error matches Some(error)
            &&& error@ == mismatch_text(version_of(request))
        },
        version_of(request) == PROTOCOL_VERSION ==> match request {
            BridgeRequest::UploadPath { path, .. } => action == BridgeAction::Upload(path),
            BridgeRequest::ClipboardImage { .. } => action == BridgeAction::CaptureImage,
        },
{
    let version: u32 = request.version();
    if version != PROTOCOL_VERSION {
        let mut error: String = "protocol version mismatch: client=".to_owned();
        error.append(decimal(version as u64).as_str());
        error.append(", bridge=");
        error.append(decimal(PROTOCOL_VERSION as u64).as_str());
        return BridgeAction::Respond(BridgeResponse::failure(error));
    }
    match request {
        BridgeRequest::UploadPath { path, .. } => BridgeAction::Upload(path),
        BridgeRequest::ClipboardImage { .. } => BridgeAction::CaptureImage,
    }
}

/// What a bridge does about the image on the clipboard, once it has been looked at.
#[derive(Debug, PartialEq, Eq)]
pub enum ClipboardAction<P> {
    /// Upload the temporary file, remove it whatever comes of that, then answer.
    Upload(P),
    /// Answer at once.
    Respond(BridgeResponse),
}

/// Decides about a request for the image on the clipboard: `captured` is the temporary file
/// that it was written to, nothing where there is no image, or what went wrong.
pub fn handle_clipboard_image_request<P>(captured: Result<Option<P>, String>) -> (action:
    ClipboardAction<P>)
    ensures
        match captured {
            Ok(Some(path)) => action == ClipboardAction::Upload(path),
            Ok(None) => {
                &&& action matches ClipboardAction::Respond(response)
                &&& response.version == PROTOCOL_VERSION
                &&& response.remote_relative_path is None
                &&& response.no_clipboard_image
                &&& response.error is None
            },
            Err(error) => {
                &&& action matches ClipboardAction::Respond(response)
                &&& response.version == PROTOCOL_VERSION
                &&& response.remote_relative_path is None
                &&& !response.no_clipboard_image
                &&& response.error == Some(error)
            },
        },
{
    match captured {
        Ok(Some(path)) => ClipboardAction::Upload(path),
        Ok(None) => ClipboardAction::Respond(BridgeResponse::no_clipboard_image()),
        Err(error) => ClipboardAction::Respond(BridgeResponse::failure(error)),
    }
}

/// A local path that is to be uploaded, as the file system knows it. `resolved` says what
/// came of following its links.
pub struct LocalFile<T> {
    pub display: String,
    pub is_absolute: bool,
    pub is_file: bool,
    pub resolved: Result<ResolvedFile<T>, String>,
}

/// A file with all links followed. It has no `name` where its last component is not UTF-8.
pub struct ResolvedFile<T> {
    pub path: T,
    pub name: Option<String>,
}

/// Why an upload did not happen.
#[derive(Debug, PartialEq, Eq)]
pub enum UploadError {
    NotAbsolute(String),
    NoSuchFile(String),
    Unresolved { path: String, reason: String },
    NameNotUtf8,
    NotStarted(LaunchError),
    Failed { status: String, stderr: Vec<u8>, stdout: Vec<u8> },
}

/// What else `tssh` printed, where that is anything.
pub open spec fn printed(stdout: Seq<char>) -> Seq<char> {
    if stdout.len() == 0 {
        seq![]
    } else {
        " ("@ + stdout + ")"@
    }
}

/// The text of an upload error.
pub open spec fn upload_error_text(error: UploadError) -> Seq<char> {
    match error {
        UploadError::NotAbsolute(path) => "local path is not absolute: "@ + path@,
        UploadError::NoSuchFile(path) => "local file does not exist: "@ + path@,
        UploadError::Unresolved { path, reason } => "failed to resolve "@ + path@ + ": "@
            + reason@,
        UploadError::NameNotUtf8 => "file name is not valid UTF-8"@,
        UploadError::NotStarted(error) => "failed to start "@ + error.program@
            + " for side-channel upload: "@ + error.reason@,
        UploadError::Failed { status, stderr, stdout } => failure_report(
            status@,
            lossy_chars(stderr@),
            lossy_chars(stdout@),
        ),
    }
}

/// The report of an upload that `tssh` gave up.
pub open spec fn failure_report(status: Seq<char>, stderr: Seq<char>, stdout: Seq<char>) -> Seq<
    char,
> {
    "tssh upload failed with "@ + status + ": "@ + trimmed(stderr) + printed(trimmed(stdout))
}

/// The report of an upload that `tssh` gave up, from its exit status and from what it printed.
pub fn failure_text(status: &str, stderr: &str, stdout: &str) -> (text: String)
    ensures
        text@ == failure_report(status@, stderr@, stdout@),
{
    let mut text: String = "tssh upload failed with ".to_owned();
    text.append(status);
    text.append(": ");
    text.append(trim(stderr));
    let rest: &str = trim(stdout);
    if !rest.is_empty() {
        text.append(" (");
        text.append(rest);
        text.append(")");
    }
    assert(text@ =~= failure_report(status@, stderr@, stdout@));
    text
}

impl UploadError {
    /// The text of the error.
    pub fn message(&self) -> (text: String)
        ensures
            text@ == upload_error_text(*self),
    {
        let mut text: String = String::new();
        match self {
            UploadError::NotAbsolute(path) => {
                text.append("local path is not absolute: ");
                text.append(path.as_str());
            },
            UploadError::NoSuchFile(path) => {
                text.append("local file does not exist: ");
                text.append(path.as_str());
            },
            UploadError::Unresolved { path, reason } => {
                text.append("failed to resolve ");
                text.append(path.as_str());
                text.append(": ");
                text.append(reason.as_str());
            },
            UploadError::NameNotUtf8 => {
                text.append("file name is not valid UTF-8");
            },
            UploadError::NotStarted(error) => {
                text.append("failed to start ");
                text.append(error.program.as_str());
                text.append(" for side-channel upload: ");
                text.append(error.reason.as_str());
            },
            UploadError::Failed { status, stderr, stdout } => {
                let complaint: String = lossy_text(stderr);
                let output: String = lossy_text(stdout);
                text = failure_text(status.as_str(), complaint.as_str(), output.as_str());
            },
        }
        assert(text@ =~= upload_error_text(*self));
        text
    }
}

/// Why a local file cannot be uploaded, if so; the first of the reasons counts.
pub open spec fn refusal<T>(local: LocalFile<T>) -> Option<UploadError> {
    if !local.is_absolute {
        Some(UploadError::NotAbsolute(local.display))
    } else if !local.is_file {
        Some(UploadError::NoSuchFile(local.display))
    } else {
        match local.resolved {
            Err(reason) => Some(UploadError::Unresolved { path: local.display, reason }),
            Ok(resolved) => if resolved.name is None {
                Some(UploadError::NameNotUtf8)
            } else {
                None
            },
        }
    }
}

/// The directory of one upload, below the remote home directory.
pub open spec fn upload_directory(session_id: Seq<char>, request_id: Seq<char>) -> Seq<char> {
    ".cache/agentdrop/files/"@ + session_id + "/"@ + request_id
}

/// The directory of one upload, below the remote home directory.
pub fn remote_upload_directory(session_id: &str, request_id: &str) -> (directory: String)
    ensures
        directory@ == upload_directory(session_id@, request_id@),
{
    let mut directory: String = ".cache/agentdrop/files/".to_owned();
    directory.append(session_id);
    directory.append("/");
    directory.append(request_id);
    directory
}

/// The remote command that makes a private directory and receives the file into it.
pub open spec fn receive_command(directory: Seq<char>) -> Seq<char> {
    "umask 077; d=\"$HOME/"@ + directory
        + "\"; mkdir -p -- \"$d\" && exec trz -y -q \"$d/\""@
}

/// The arguments with which `tssh` is started for one upload.
pub open spec fn upload_argv<T>(
    tssh_args: Seq<T>,
    path: T,
    destination: Seq<char>,
    directory: Seq<char>,
) -> Seq<ArgumentModel<T>> {
    (given(tssh_args) + words(seq!["-o"@, "EnableDragFile=no"@, "--upload-file"@])).push(
        ArgumentModel::Given(path),
    ) + words(seq![destination, receive_command(directory)])
}

/// An upload that is about to start: the arguments for `tssh`, and where the file will then
/// stand, below the remote home directory.
pub struct UploadPlan<T> {
    pub argv: Vec<Argument<T>>,
    pub remote_relative_path: String,
}

/// What the plan for a file says, given the identifiers.
pub open spec fn planned<T>(
    plan: UploadPlan<T>,
    file: ResolvedFile<T>,
    tssh_args: Seq<T>,
    destination: Seq<char>,
    session_id: Seq<char>,
    request_id: Seq<char>,
) -> bool {
    let directory = upload_directory(session_id, request_id);
    &&& argument_models(plan.argv@) == upload_argv(tssh_args, file.path, destination, directory)
    &&& plan.remote_relative_path@ == directory + "/"@ + file.name->0@
}

/// Plans an upload under a given request identifier, or says why there will be none.
pub fn plan_upload<T>(
    local: LocalFile<T>,
    tssh_args: Vec<T>,
    destination: &str,
    session_id: &str,
    request_id: &str,
) -> (plan: Result<UploadPlan<T>, UploadError>)
    ensures
        match plan {
            Ok(plan) => {
                &&& refusal(local) is None
                &&& planned(
                    plan,
                    local.resolved->Ok_0,
                    tssh_args@,
                    destination@,
                    session_id@,
                    request_id@,
                )
            },
            Err(error) => refusal(local) == Some(error),
        },
{
    if !local.is_absolute {
        return Err(UploadError::NotAbsolute(local.display));
    }
    if !local.is_file {
        return Err(UploadError::NoSuchFile(local.display));
    }
    let file: ResolvedFile<T> = match local.resolved {
        Ok(file) => file,
        Err(reason) => {
            return Err(UploadError::Unresolved { path: local.display, reason });
        },
    };
    let name: String = match file.name {
        Some(name) => name,
        None => {
            return Err(UploadError::NameNotUtf8);
        },
    };
    let directory: String = remote_upload_directory(session_id, request_id);
    let mut command: String = "umask 077; d=\"$HOME/".to_owned();
    command.append(directory.as_str());
    command.append("\"; mkdir -p -- \"$d\" && exec trz -y -q \"$d/\"");
    let mut argv: Vec<Argument<T>> = Vec::new();
    extend_given(&mut argv, tssh_args);
    push_text(&mut argv, "-o");
    push_text(&mut argv, "EnableDragFile=no");
    push_text(&mut argv, "--upload-file");
    push_given(&mut argv, file.path);
    push_text(&mut argv, destination);
    push_text(&mut argv, command.as_str());
    assert(argument_models(argv@) =~= upload_argv(
        tssh_args@,
        file.path,
        destination@,
        directory@,
    ));
    let mut remote_relative_path: String = directory;
    remote_relative_path.append("/");
    remote_relative_path.append(name.as_str());
    Ok(UploadPlan { argv, remote_relative_path })
}

/// Plans an upload into a directory of its own, or says why there will be none.
pub fn upload_local_file<T>(
    local: LocalFile<T>,
    tssh_args: Vec<T>,
    destination: &str,
    session_id: &str,
) -> (plan: Result<UploadPlan<T>, UploadError>)
    ensures
        match plan {
            Ok(plan) => {
                &&& refusal(local) is None
                &&& exists|request_id: Seq<char>| #[trigger]
                    is_identifier(request_id) && planned(
                        plan,
                        local.resolved->Ok_0,
                        tssh_args@,
                        destination@,
                        session_id@,
                        request_id,
                    )
            },
            Err(error) => refusal(local) == Some(error),
        },
{
    let request_id: String = fresh_identifier();
    plan_upload(local, tssh_args, destination, session_id, request_id.as_str())
}

/// How a run of `tssh` ended. `status` is how the system words its exit status.
pub struct CommandOutput {
    pub success: bool,
    pub status: String,
    pub stdout: Vec<u8>,
    pub stderr: Vec<u8>,
}

/// A program that could not be started, and the reason that the system gave.
#[derive(Debug, PartialEq, Eq)]
pub struct LaunchError {
    pub program: String,
    pub reason: String,
}

/// What came of an upload: where the file stands, or why it does not. `run` is what came of
/// running `tssh`, or why it could not be started.
pub fn finish_upload(
    remote_relative_path: String,
    run: Result<CommandOutput, LaunchError>,
) -> (result: Result<String, UploadError>)
    ensures
        result == (match run {
            Err(error) => Err(UploadError::NotStarted(error)),
            Ok(output) => if output.success {
                Ok(remote_relative_path)
            } else {
                Err(
                    UploadError::Failed {
                        status: output.status,
                        stderr: output.stderr,
                        stdout: output.stdout,
                    },
                )
            },
        }),
{
    match run {
        Err(error) => Err(UploadError::NotStarted(error)),
        Ok(output) => if output.success {
            Ok(remote_relative_path)
        } else {
            Err(
                UploadError::Failed {
                    status: output.status,
                    stderr: output.stderr,
                    stdout: output.stdout,
                },
            )
        },
    }
}

/// The answer to an upload request.
pub fn upload_reply(result: Result<String, UploadError>) -> (response: BridgeResponse)
    ensures
        response.version == PROTOCOL_VERSION,
        !response.no_clipboard_image,
        match result {
            Ok(path) => response.remote_relative_path == Some(path) && response.error is None,
            Err(error) => {
                &&& response.remote_relative_path is None
                &&& response.error matches Some(text)
                &&& text@ == upload_error_text(error)
            },
        },
{
    match result {
        Ok(path) => BridgeResponse::success(path),
        Err(error) => BridgeResponse::failure(error.message()),
    }
}

} // verus!

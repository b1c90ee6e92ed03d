//! What calls on the local side give, stated of their arguments and results.
use vstd::prelude::*;
use vstd::utf8::encode_utf8;
use crate::argv::{argument_models, Argument, ArgumentModel};
use crate::connect::{
    failure_text, finish_upload, handle_bridge_request, handle_clipboard_image_request,
    interactive_argv, message_line, plan_session, plan_upload, planned, remote_socket,
    remote_upload_directory, request_document, reverse_forward, run_bridge, session_exit_code,
    upload_local_file, upload_reply, BridgeAction, BridgeEvent, BridgeStep, ClipboardAction,
    CommandOutput, LaunchError, LocalFile, RequestError, SessionPlan, UploadError, UploadPlan,
};
use crate::identifier::{is_hex_digit, is_identifier};
use crate::laws::commands::{
    begins_with_given, law_command_and_report_agree, law_refusal_is_the_first_fault,
    law_session_forwards_its_socket, law_session_socket_carries_its_identifier, option_stands,
};
use crate::laws::texts::{
    is_blank, law_failure_report_shows_everything, law_mismatch_names_the_version,
    law_trimmed_end_keeps_the_rest, law_upload_errors_name_their_cause, number_of, says,
};
use crate::protocol::{BridgeRequest, BridgeResponse, UploadResponse};
use crate::text::{lossy_chars, trimmed, trimmed_end};

verus! {

/// The command line of a session of this identifier: the given options first, then drag handling
/// off and the private socket forwarded to the port, then the destination, and no other word.
pub open spec fn is_session_line<T>(
    line: Seq<ArgumentModel<T>>,
    tssh_args: Seq<T>,
    destination: Seq<char>,
    session_id: Seq<char>,
    port: u16,
) -> bool {
    let n = tssh_args.len() as int;
    &&& line.len() == n + 9
    &&& begins_with_given(line, tssh_args)
    &&& line[n + 8] == ArgumentModel::<T>::Text(destination)
    &&& option_stands(line, n, n + 8, "-o"@, ArgumentModel::Text("EnableDragFile=no"@))
    &&& option_stands(line, n, n + 8, "-o"@, ArgumentModel::Text("StreamLocalBindUnlink=yes"@))
    &&& option_stands(line, n, n + 8, "-o"@, ArgumentModel::Text("StreamLocalBindMask=0177"@))
    &&& exists|digits: Seq<char>|
        #[trigger] number_of(digits) == port && option_stands(
            line,
            n,
            n + 8,
            "-R"@,
            ArgumentModel::Text(
                "/tmp/agentdrop-"@ + session_id + ".sock"@ + ":127.0.0.1:"@ + digits,
            ),
        )
}

/// A session is started with its socket forwarded, whatever options are given, even none.
pub proof fn law_session_is_started_with_its_socket<T>(
    tssh_args: Vec<T>,
    destination: &str,
    session_id: &str,
    port: u16,
    argv: Vec<Argument<T>>,
    plan: SessionPlan<T>,
)
    requires
        call_ensures(interactive_argv::<T>, (tssh_args, destination, session_id, port), argv),
        call_ensures(plan_session::<T>, (tssh_args, destination, port), plan),
    ensures
        is_session_line(
            argument_models(argv@),
            tssh_args@,
            destination@,
            session_id@,
            port,
        ),
        is_session_line(
            argument_models(plan.argv@),
            tssh_args@,
            destination@,
            plan.session_id@,
            port,
        ),
        plan.session_id@.len() == 32,
        forall|i: int| 0 <= i < 32 ==> is_hex_digit(#[trigger] plan.session_id@[i]),
{
    law_session_forwards_its_socket(tssh_args@, destination@, session_id@, port);
    law_session_forwards_its_socket(tssh_args@, destination@, plan.session_id@, port);
}

/// The socket and the forwarding carry the whole identifier and the port.
pub proof fn law_socket_is_named_by_its_session(
    session_id: &str,
    port: u16,
    socket: String,
    spec: String,
)
    requires
        call_ensures(remote_socket, (session_id,), socket),
        call_ensures(reverse_forward, (session_id, port), spec),
    ensures
        socket@ == "/tmp/agentdrop-"@ + session_id@ + ".sock"@,
        exists|digits: Seq<char>|
            #[trigger] number_of(digits) == port && spec@ == socket@ + ":127.0.0.1:"@ + digits,
{
    law_session_socket_carries_its_identifier(session_id@, port);
}

/// This program ends as `tssh` did, and with 1 where that has no exit code.
pub proof fn law_exit_code_is_passed_on(status: Option<i32>, code: i32)
    requires
        call_ensures(session_exit_code, (status,), code),
    ensures
        status matches Some(given) ==> code == given,
        status is None ==> code == 1,
{
}

/// A bridge stops exactly when the session has ended or its listener failed; it looks for a
/// client whenever it is ready otherwise, and serves every client.
pub proof fn law_bridge_runs_on(event: BridgeEvent, step: BridgeStep)
    requires
        call_ensures(run_bridge, (event,), step),
    ensures
        step is Stop <==> event == (BridgeEvent::Ready { stop: true }) || event is Failed,
        step is Accept <==> event == (BridgeEvent::Ready { stop: false }),
        step is Serve <==> event is Connection,
        step is Wait <==> event is WouldBlock,
        step matches BridgeStep::Wait(milliseconds) ==> milliseconds == 40,
{
}

/// A request line is refused exactly if it is empty or longer than 64 KiB; otherwise the document
/// is the line without the white space at its end, and nothing else is taken off.
pub proof fn law_request_line_is_read(line: &str, document: Result<&str, RequestError>)
    requires
        call_ensures(request_document, (line,), document),
    ensures
        document is Ok <==> 0 < encode_utf8(line@).len() <= 65536,
        document == Err::<&str, _>(RequestError::Empty) <==> encode_utf8(line@).len() == 0,
        document matches Ok(text) ==> {
            &&& text@.is_prefix_of(line@)
            &&& is_blank(line@.subrange(text@.len() as int, line@.len() as int))
            &&& text@.len() > 0 ==> !crate::text::is_white_space(text@.last())
        },
{
    law_trimmed_end_keeps_the_rest(line@);
}

/// A document that is sent as a line is the document that is received.
pub proof fn law_sent_document_is_received(
    document: &str,
    line: String,
    sent: &str,
    received: Result<&str, RequestError>,
)
    requires
        call_ensures(message_line, (document,), line),
        sent@ == line@,
        call_ensures(request_document, (sent,), received),
        trimmed_end(document@) == document@,
        encode_utf8(document@).len() < 65536,
    ensures
        line@ == document@ + seq!['\n'],
        received matches Ok(text) && text@ == document@,
{
    crate::laws::law_message_line_is_received(document@);
    assert(document@ + seq!['\n'] =~= document@.push('\n'));
}

/// An upload request of version 1 is an upload of the path that it names, and a request for the
/// clipboard image of version 1 is that. A request of any other version is answered with an
/// error that gives its version, and nothing is uploaded.
pub proof fn law_requests_are_acted_on(
    version: u32,
    path: String,
    upload: BridgeAction,
    image: BridgeAction,
)
    requires
        call_ensures(handle_bridge_request, (BridgeRequest::UploadPath { version, path },), upload),
        call_ensures(handle_bridge_request, (BridgeRequest::ClipboardImage { version },), image),
    ensures
        version == 1 ==> upload == BridgeAction::Upload(path),
        version == 1 ==> image is CaptureImage,
        version != 1 ==> is_version_refusal(upload, version) && is_version_refusal(image, version),
{
    law_mismatch_names_the_version(version);
}

/// The answer to a request of another version.
pub open spec fn is_version_refusal(action: BridgeAction, version: u32) -> bool {
    &&& action matches BridgeAction::Respond(response)
    &&& response.version == 1
    &&& response.remote_relative_path is None
    &&& !response.no_clipboard_image
    &&& response.error matches Some(error)
    &&& exists|digits: Seq<char>|
        #[trigger] number_of(digits) == version && error@
            == "protocol version mismatch: client="@ + digits + ", bridge=1"@
}

/// An image that was captured is uploaded from the file that it is in; that there is none is
/// answered as such, and a failure with its reason.
pub proof fn law_clipboard_requests_are_acted_on<P>(
    file: P,
    reason: String,
    captured: ClipboardAction<P>,
    nothing: ClipboardAction<P>,
    failed: ClipboardAction<P>,
)
    requires
        call_ensures(handle_clipboard_image_request::<P>, (Ok(Some(file)),), captured),
        call_ensures(handle_clipboard_image_request::<P>, (Ok(None),), nothing),
        call_ensures(handle_clipboard_image_request::<P>, (Err(reason),), failed),
    ensures
        captured == ClipboardAction::Upload(file),
        nothing matches ClipboardAction::Respond(response) && response == (BridgeResponse {
            version: 1,
            remote_relative_path: None,
            no_clipboard_image: true,
            error: None,
        }),
        failed matches ClipboardAction::Respond(response) && response == (BridgeResponse {
            version: 1,
            remote_relative_path: None,
            no_clipboard_image: false,
            error: Some(reason),
        }),
{
}

/// Replies say what they are for: success carries the path, failure the reason, and neither
/// carries the other.
pub proof fn law_replies_carry_what_they_are_for(
    text: String,
    done: UploadResponse,
    failed: UploadResponse,
    bridge_done: BridgeResponse,
    bridge_failed: BridgeResponse,
    nothing: BridgeResponse,
)
    requires
        call_ensures(UploadResponse::success, (text,), done),
        call_ensures(UploadResponse::failure, (text,), failed),
        call_ensures(BridgeResponse::success, (text,), bridge_done),
        call_ensures(BridgeResponse::failure, (text,), bridge_failed),
        call_ensures(BridgeResponse::no_clipboard_image, (), nothing),
    ensures
        done == (UploadResponse { version: 1, remote_relative_path: Some(text), error: None }),
        failed == (UploadResponse { version: 1, remote_relative_path: None, error: Some(text) }),
        bridge_done == (BridgeResponse {
            version: 1,
            remote_relative_path: Some(text),
            no_clipboard_image: false,
            error: None,
        }),
        bridge_failed == (BridgeResponse {
            version: 1,
            remote_relative_path: None,
            no_clipboard_image: false,
            error: Some(text),
        }),
        nothing == (BridgeResponse {
            version: 1,
            remote_relative_path: None,
            no_clipboard_image: true,
            error: None,
        }),
{
}

/// The directory of an upload is named by both identifiers.
pub proof fn law_directory_is_named_by_its_upload(
    session_id: &str,
    request_id: &str,
    directory: String,
)
    requires
        call_ensures(remote_upload_directory, (session_id, request_id), directory),
    ensures
        directory@ == ".cache/agentdrop/files/"@ + session_id@ + "/"@ + request_id@,
{
}

/// The plan of an upload of `file` under these identifiers: the remote command fills the very
/// directory of the reported path, and the command line sends that file to the destination.
pub open spec fn is_upload_plan<T>(
    plan: UploadPlan<T>,
    path: T,
    name: Seq<char>,
    tssh_args: Seq<T>,
    destination: Seq<char>,
    directory: Seq<char>,
) -> bool {
    let line = argument_models(plan.argv@);
    let n = tssh_args.len() as int;
    &&& plan.remote_relative_path@ == directory + seq!['/'] + name
    &&& line.len() == n + 6
    &&& begins_with_given(line, tssh_args)
    &&& option_stands(line, n, n + 4, "-o"@, ArgumentModel::Text("EnableDragFile=no"@))
    &&& option_stands(line, n, n + 4, "--upload-file"@, ArgumentModel::Given(path))
    &&& line[n + 4] == ArgumentModel::<T>::Text(destination)
    &&& line[n + 5] == ArgumentModel::<T>::Text(
        "umask 077; d=\"$HOME/"@ + directory
            + "\"; mkdir -p -- \"$d\" && exec trz -y -q \"$d/\""@,
    )
}

/// What was planned, in these words.
proof fn lemma_planned<T>(
    plan: UploadPlan<T>,
    local: LocalFile<T>,
    tssh_args: Seq<T>,
    destination: Seq<char>,
    session_id: Seq<char>,
    request_id: Seq<char>,
)
    requires
        local.resolved is Ok,
        local.resolved->Ok_0.name is Some,
        planned(plan, local.resolved->Ok_0, tssh_args, destination, session_id, request_id),
    ensures
        is_upload_plan(
            plan,
            local.resolved->Ok_0.path,
            local.resolved->Ok_0.name->0@,
            tssh_args,
            destination,
            ".cache/agentdrop/files/"@ + session_id + "/"@ + request_id,
        ),
{
    reveal_strlit("/");
    assert("/"@ =~= seq!['/']);
    let file = local.resolved->Ok_0;
    let n = tssh_args.len() as int;
    let line = argument_models(plan.argv@);
    law_command_and_report_agree(plan, file, tssh_args, destination, session_id, request_id);
    assert(line.len() == n + 6);
    assert(line[n] == ArgumentModel::<T>::Text("-o"@));
    assert(line[n + 1] == ArgumentModel::<T>::Text("EnableDragFile=no"@));
    assert(line[n + 2] == ArgumentModel::<T>::Text("--upload-file"@));
    assert(line[n + 3] == ArgumentModel::Given(file.path));
    assert(line[n + 4] == ArgumentModel::<T>::Text(destination));
}

/// A file that can be uploaded is planned so that it arrives where the plan says; any other is
/// refused for its first fault.
pub proof fn law_upload_is_planned<T>(
    local: LocalFile<T>,
    tssh_args: Vec<T>,
    destination: &str,
    session_id: &str,
    request_id: &str,
    plan: Result<UploadPlan<T>, UploadError>,
)
    requires
        call_ensures(
            plan_upload::<T>,
            (local, tssh_args, destination, session_id, request_id),
            plan,
        ),
    ensures
        match plan {
            Ok(plan) => {
                &&& local.is_absolute && local.is_file
                &&& local.resolved matches Ok(file)
                &&& file.name matches Some(name)
                &&& is_upload_plan(
                    plan,
                    file.path,
                    name@,
                    tssh_args@,
                    destination@,
                    ".cache/agentdrop/files/"@ + session_id@ + "/"@ + request_id@,
                )
            },
            Err(error) => is_first_fault(local, error),
        },
{
    law_refusal_is_the_first_fault(local);
    if plan is Ok {
        lemma_planned(
            plan->Ok_0,
            local,
            tssh_args@,
            destination@,
            session_id@,
            request_id@,
        );
    }
}

/// The first thing that is wrong with a file.
pub open spec fn is_first_fault<T>(local: LocalFile<T>, error: UploadError) -> bool {
    if !local.is_absolute {
        error == UploadError::NotAbsolute(local.display)
    } else if !local.is_file {
        error == UploadError::NoSuchFile(local.display)
    } else {
        match local.resolved {
            Err(reason) => error == (UploadError::Unresolved { path: local.display, reason }),
            Ok(file) => file.name is None && error is NameNotUtf8,
        }
    }
}

/// Every upload goes into a directory of its own session, under an identifier of its own.
pub proof fn law_upload_has_its_own_directory<T>(
    local: LocalFile<T>,
    tssh_args: Vec<T>,
    destination: &str,
    session_id: &str,
    plan: Result<UploadPlan<T>, UploadError>,
)
    requires
        call_ensures(
            upload_local_file::<T>,
            (local, tssh_args, destination, session_id),
            plan,
        ),
    ensures
        match plan {
            Ok(plan) => {
                &&& local.is_absolute && local.is_file
                &&& local.resolved matches Ok(file)
                &&& file.name matches Some(name)
                &&& exists|request_id: Seq<char>|
                    #[trigger] is_identifier(request_id) && is_upload_plan(
                        plan,
                        file.path,
                        name@,
                        tssh_args@,
                        destination@,
                        ".cache/agentdrop/files/"@ + session_id@ + "/"@ + request_id,
                    )
            },
            Err(error) => is_first_fault(local, error),
        },
{
    law_refusal_is_the_first_fault(local);
    if plan is Ok {
        let request_id = choose|request_id: Seq<char>|
            #[trigger] is_identifier(request_id) && planned(
                plan->Ok_0,
                local.resolved->Ok_0,
                tssh_args@,
                destination@,
                session_id@,
                request_id,
            );
        lemma_planned(
            plan->Ok_0,
            local,
            tssh_args@,
            destination@,
            session_id@,
            request_id,
        );
    }
}

/// An upload succeeds exactly if `tssh` ran and succeeded, and then its path is reported; an
/// error carries all that is known of the failure.
pub proof fn law_upload_is_reported(
    path: String,
    output: CommandOutput,
    launch: LaunchError,
    ended: Result<String, UploadError>,
    unstarted: Result<String, UploadError>,
)
    requires
        call_ensures(finish_upload, (path, Ok(output)), ended),
        call_ensures(finish_upload, (path, Err(launch)), unstarted),
    ensures
        output.success ==> ended == Ok::<_, UploadError>(path),
        !output.success ==> ended == Err::<String, _>(
            UploadError::Failed {
                status: output.status,
                stderr: output.stderr,
                stdout: output.stdout,
            },
        ),
        unstarted == Err::<String, _>(UploadError::NotStarted(launch)),
{
}

/// What came of an upload is answered as it is: the path, or the text of the error.
pub proof fn law_upload_is_answered(
    path: String,
    error: UploadError,
    done: BridgeResponse,
    failed: BridgeResponse,
    text: String,
)
    requires
        call_ensures(upload_reply, (Ok(path),), done),
        call_ensures(upload_reply, (Err(error),), failed),
        call_ensures(UploadError::message, (&error,), text),
    ensures
        done.version == 1 && failed.version == 1,
        done.remote_relative_path == Some(path) && done.error is None,
        failed.remote_relative_path is None,
        failed.error matches Some(given) && given@ == text@,
        !done.no_clipboard_image && !failed.no_clipboard_image,
{
}

/// The text of an upload error says what failed and gives its cause whole.
pub proof fn law_upload_error_gives_its_cause(error: UploadError, text: String)
    requires
        call_ensures(UploadError::message, (&error,), text),
    ensures
        match error {
            UploadError::NotAbsolute(path) => says(text@, "local path is not absolute: "@, path@),
            UploadError::NoSuchFile(path) => says(text@, "local file does not exist: "@, path@),
            UploadError::Unresolved { path, reason } => says(
                text@,
                "failed to resolve "@ + path@,
                ": "@ + reason@,
            ),
            UploadError::NameNotUtf8 => text@ == "file name is not valid UTF-8"@,
            UploadError::NotStarted(launch) => says(
                text@,
                "failed to start "@ + launch.program@,
                " for side-channel upload: "@ + launch.reason@,
            ),
            UploadError::Failed { status, stderr, stdout } => {
                let complaint = trimmed(lossy_chars(stderr@));
                let printed = lossy_chars(stdout@);
                &&& is_blank(printed) ==> says(
                    text@,
                    "tssh upload failed with "@ + status@,
                    ": "@ + complaint,
                )
                &&& !is_blank(printed) ==> says(
                    text@,
                    "tssh upload failed with "@ + status@ + ": "@ + complaint,
                    " ("@ + trimmed(printed) + ")"@,
                )
            },
        },
{
    match error {
        UploadError::NotAbsolute(path) | UploadError::NoSuchFile(path) => {
            let v = arbitrary::<Vec<u8>>();
            law_upload_errors_name_their_cause(path, path, arbitrary::<LaunchError>(), v, v);
        },
        UploadError::Unresolved { path, reason } => {
            let v = arbitrary::<Vec<u8>>();
            law_upload_errors_name_their_cause(path, reason, arbitrary::<LaunchError>(), v, v);
        },
        UploadError::NotStarted(launch) => {
            let v = arbitrary::<Vec<u8>>();
            law_upload_errors_name_their_cause(launch.program, launch.program, launch, v, v);
        },
        UploadError::Failed { status, stderr, stdout } => {
            let l = arbitrary::<LaunchError>();
            law_upload_errors_name_their_cause(status, status, l, stderr, stdout);
            law_failure_report_shows_everything(
                status@,
                lossy_chars(stderr@),
                lossy_chars(stdout@),
            );
        },
        UploadError::NameNotUtf8 => {},
    }
}

/// A report shows how `tssh` ended and all that it printed but white space around it.
pub proof fn law_report_shows_everything(status: &str, stderr: &str, stdout: &str, text: String)
    requires
        call_ensures(failure_text, (status, stderr, stdout), text),
    ensures
        is_blank(stdout@) ==> says(
            text@,
            "tssh upload failed with "@ + status@,
            ": "@ + trimmed(stderr@),
        ),
        !is_blank(stdout@) ==> says(
            text@,
            "tssh upload failed with "@ + status@ + ": "@ + trimmed(stderr@),
            " ("@ + trimmed(stdout@) + ")"@,
        ),
{
    law_failure_report_shows_everything(status@, stderr@, stdout@);
}

} // verus!

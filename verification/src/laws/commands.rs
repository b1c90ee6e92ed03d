//! What the command lines hold, word by word.
use vstd::prelude::*;
use crate::argv::{argument_models, Argument, ArgumentModel};
use crate::connect::{
    forwarding, planned, receive_command, refusal, session_argv, socket_path, upload_directory,
    LocalFile, ResolvedFile, UploadError, UploadPlan,
};
use crate::identifier::is_identifier;
use crate::laws::texts::{law_decimal_reads_back, number_of};
use crate::laws::{is_shell_safe, law_upload_directory_is_shell_safe};
use crate::proxy::agent_arguments;
use crate::shell::{law_shell_reads_quoted_text_back, quoted, shell_word, Quotes};
use crate::text::decimal_digits;
use crate::uploader::{
    make_directory_argv, make_directory_command, transfer_argv, transfer_command,
};

verus! {

/// A command line is what its arguments are, one by one.
pub proof fn law_arguments_are_what_they_hold<T>(argv: Seq<Argument<T>>, text: String, argument: T)
    ensures
        Argument::<T>::Text(text)@ == ArgumentModel::<T>::Text(text@),
        Argument::Given(argument)@ == ArgumentModel::Given(argument),
        argument_models(argv).len() == argv.len(),
        forall|i: int| 0 <= i < argv.len() ==> #[trigger] argument_models(argv)[i] == argv[i]@,
{
}

/// `line` begins with the given arguments, in their order and untouched.
pub open spec fn begins_with_given<T>(line: Seq<ArgumentModel<T>>, arguments: Seq<T>) -> bool {
    &&& arguments.len() <= line.len()
    &&& forall|i: int|
        0 <= i < arguments.len() ==> #[trigger] line[i] == ArgumentModel::Given(arguments[i])
}

/// `option` stands somewhere from place `from` to place `to`, with `value` right behind it.
pub open spec fn option_stands<T>(
    line: Seq<ArgumentModel<T>>,
    from: int,
    to: int,
    option: Seq<char>,
    value: ArgumentModel<T>,
) -> bool {
    exists|k: int|
        {
            &&& from <= k
            &&& k + 1 < to
            &&& #[trigger] line[k] == ArgumentModel::<T>::Text(option)
            &&& line[k + 1] == value
        }
}

/// Whatever options are given, even none: between them and the destination stand the options
/// that switch drag handling off, make the socket private, and forward it to the local port. No
/// other word is added.
pub proof fn law_session_forwards_its_socket<T>(
    tssh_args: Seq<T>,
    destination: Seq<char>,
    session_id: Seq<char>,
    port: u16,
)
    ensures
        ({
            let line = session_argv(tssh_args, destination, session_id, port);
            let n = tssh_args.len() as int;
            let end = line.len() - 1;
            &&& line.len() == n + 9
            &&& begins_with_given(line, tssh_args)
            &&& line[end] == ArgumentModel::<T>::Text(destination)
            &&& option_stands(line, n, end, "-o"@, ArgumentModel::Text("EnableDragFile=no"@))
            &&& option_stands(
                line,
                n,
                end,
                "-o"@,
                ArgumentModel::Text("StreamLocalBindUnlink=yes"@),
            )
            &&& option_stands(
                line,
                n,
                end,
                "-o"@,
                ArgumentModel::Text("StreamLocalBindMask=0177"@),
            )
            &&& exists|digits: Seq<char>|
                #[trigger] number_of(digits) == port && option_stands(
                    line,
                    n,
                    end,
                    "-R"@,
                    ArgumentModel::Text(
                        "/tmp/agentdrop-"@ + session_id + ".sock"@ + ":127.0.0.1:"@ + digits,
                    ),
                )
        }),
{
    let line = session_argv(tssh_args, destination, session_id, port);
    let n = tssh_args.len() as int;
    let end = line.len() - 1;
    let digits = decimal_digits(port as nat);
    law_decimal_reads_back(port as nat);
    assert(number_of(digits) == port);
    let forward = "/tmp/agentdrop-"@ + session_id + ".sock"@ + ":127.0.0.1:"@ + digits;
    assert(forwarding(session_id, port) =~= forward);
    assert(line[n] == ArgumentModel::<T>::Text("-o"@));
    assert(line[n + 1] == ArgumentModel::<T>::Text("EnableDragFile=no"@));
    assert(line[n + 2] == ArgumentModel::<T>::Text("-o"@));
    assert(line[n + 3] == ArgumentModel::<T>::Text("StreamLocalBindUnlink=yes"@));
    assert(line[n + 4] == ArgumentModel::<T>::Text("-o"@));
    assert(line[n + 5] == ArgumentModel::<T>::Text("StreamLocalBindMask=0177"@));
    assert(line[n + 6] == ArgumentModel::<T>::Text("-R"@));
    assert(line[n + 7] == ArgumentModel::<T>::Text(forward));
    assert(line[end] == ArgumentModel::<T>::Text(destination));
    assert(option_stands(line, n, end, "-R"@, ArgumentModel::Text(forward)));
}

/// The socket of a session carries the whole of its identifier, so different sessions have
/// different sockets, and its forwarding leads from that socket to the port.
pub proof fn law_session_socket_carries_its_identifier(session_id: Seq<char>, port: u16)
    ensures
        socket_path(session_id) == "/tmp/agentdrop-"@ + session_id + ".sock"@,
        exists|digits: Seq<char>|
            #[trigger] number_of(digits) == port && forwarding(session_id, port) == socket_path(
                session_id,
            ) + ":127.0.0.1:"@ + digits,
{
    law_decimal_reads_back(port as nat);
    assert(number_of(decimal_digits(port as nat)) == port);
}

/// Different sessions have different sockets.
pub proof fn law_sessions_do_not_share_a_socket(a: Seq<char>, b: Seq<char>)
    requires
        a != b,
    ensures
        socket_path(a) != socket_path(b),
{
    let front = "/tmp/agentdrop-"@.len() as int;
    let back = ".sock"@.len();
    let x = socket_path(a);
    let y = socket_path(b);
    assert(x.subrange(front, x.len() - back) =~= a);
    assert(y.subrange(front, y.len() - back) =~= b);
}

/// The directory of an upload names both identifiers in full, below the cache of this program.
pub proof fn law_upload_directory_names_its_upload(session_id: Seq<char>, request_id: Seq<char>)
    ensures
        ({
            let directory = upload_directory(session_id, request_id);
            let n = ".cache/agentdrop/files/"@.len() as int;
            &&& ".cache/agentdrop/files/"@.is_prefix_of(directory)
            &&& directory.subrange(n, n + session_id.len()) == session_id
            &&& directory[n + session_id.len()] == '/'
            &&& directory.subrange(n + session_id.len() + 1, directory.len() as int) == request_id
        }),
{
    reveal_strlit("/");
    let directory = upload_directory(session_id, request_id);
    let n = ".cache/agentdrop/files/"@.len() as int;
    assert(directory.subrange(0, n) =~= ".cache/agentdrop/files/"@);
    assert(directory.subrange(n, n + session_id.len()) =~= session_id);
    assert(directory.subrange(n + session_id.len() + 1, directory.len() as int) =~= request_id);
}

/// The remote command of an upload holds the directory whole, right behind its opening words, so
/// commands for different directories differ.
pub proof fn law_receive_command_holds_its_directory(directory: Seq<char>)
    ensures
        ({
            let command = receive_command(directory);
            let front = "umask 077; d=\"$HOME/"@;
            let back = "\"; mkdir -p -- \"$d\" && exec trz -y -q \"$d/\""@;
            &&& front.is_prefix_of(command)
            &&& back.is_suffix_of(command)
            &&& command.len() == front.len() + directory.len() + back.len()
            &&& command.subrange(front.len() as int, command.len() - back.len()) == directory
        }),
{
    let command = receive_command(directory);
    let front = "umask 077; d=\"$HOME/"@;
    let back = "\"; mkdir -p -- \"$d\" && exec trz -y -q \"$d/\""@;
    assert(command.subrange(0, front.len() as int) =~= front);
    assert(command.subrange(command.len() - back.len(), command.len() as int) =~= back);
    assert(command.subrange(front.len() as int, command.len() - back.len()) =~= directory);
}

/// A file arrives where its plan says. The path that is reported is a directory, a slash and the
/// name of the file; the remote command, which is the last word of the command line, makes and
/// fills that same directory, whose text ends at the next double quote. The command line begins
/// with the given options, has drag handling off, sends the resolved path and goes to the
/// destination, with no other word.
pub proof fn law_file_arrives_where_the_plan_says<T>(
    plan: UploadPlan<T>,
    file: ResolvedFile<T>,
    tssh_args: Seq<T>,
    destination: Seq<char>,
    session_id: Seq<char>,
    request_id: Seq<char>,
)
    requires
        is_identifier(session_id),
        is_identifier(request_id),
        file.name is Some,
        planned(plan, file, tssh_args, destination, session_id, request_id),
    ensures
        ({
            let line = argument_models(plan.argv@);
            let n = tssh_args.len() as int;
            let name = file.name->0@;
            let reported = plan.remote_relative_path@;
            let directory = reported.subrange(0, reported.len() - name.len() - 1);
            &&& name.len() < reported.len()
            &&& reported == directory + seq!['/'] + name
            &&& !directory.contains('"')
            &&& line.len() == n + 6
            &&& begins_with_given(line, tssh_args)
            &&& option_stands(line, n, n + 4, "-o"@, ArgumentModel::Text("EnableDragFile=no"@))
            &&& option_stands(
                line,
                n,
                n + 4,
                "--upload-file"@,
                ArgumentModel::Given(file.path),
            )
            &&& line[n + 4] == ArgumentModel::<T>::Text(destination)
            &&& line[n + 5] == ArgumentModel::<T>::Text(
                "umask 077; d=\"$HOME/"@ + directory
                    + "\"; mkdir -p -- \"$d\" && exec trz -y -q \"$d/\""@,
            )
        }),
{
    reveal_strlit("/");
    let line = argument_models(plan.argv@);
    let n = tssh_args.len() as int;
    let name = file.name->0@;
    let reported = plan.remote_relative_path@;
    let directory = upload_directory(session_id, request_id);
    assert("/"@ =~= seq!['/']);
    assert(reported.subrange(0, reported.len() - name.len() - 1) =~= directory);
    assert(reported =~= directory + seq!['/'] + name);
    law_upload_directory_is_shell_safe(session_id, request_id);
    if directory.contains('"') {
        let i = choose|i: int| 0 <= i < directory.len() && directory[i] == '"';
        assert(is_shell_safe(directory[i]));
    }
    assert(line[n] == ArgumentModel::<T>::Text("-o"@));
    assert(line[n + 1] == ArgumentModel::<T>::Text("EnableDragFile=no"@));
    assert(line[n + 2] == ArgumentModel::<T>::Text("--upload-file"@));
    assert(line[n + 3] == ArgumentModel::Given(file.path));
    assert(line[n + 4] == ArgumentModel::<T>::Text(destination));
    assert(line[n + 5] == ArgumentModel::<T>::Text(receive_command(directory)));
}

/// Under any identifiers, the directory in the remote command is the one in the reported path.
pub proof fn law_command_and_report_agree<T>(
    plan: UploadPlan<T>,
    file: ResolvedFile<T>,
    tssh_args: Seq<T>,
    destination: Seq<char>,
    session_id: Seq<char>,
    request_id: Seq<char>,
)
    requires
        file.name is Some,
        planned(plan, file, tssh_args, destination, session_id, request_id),
    ensures
        exists|directory: Seq<char>|
            {
                &&& plan.remote_relative_path@ == #[trigger] (directory + "/"@) + file.name->0@
                &&& argument_models(plan.argv@).last() == ArgumentModel::<T>::Text(
                    "umask 077; d=\"$HOME/"@ + directory
                        + "\"; mkdir -p -- \"$d\" && exec trz -y -q \"$d/\""@,
                )
                &&& directory == ".cache/agentdrop/files/"@ + session_id + "/"@ + request_id
            },
{
    let directory = upload_directory(session_id, request_id);
    assert(plan.remote_relative_path@ == (directory + "/"@) + file.name->0@);
    assert(argument_models(plan.argv@).last() == ArgumentModel::<T>::Text(
        receive_command(directory),
    ));
}

/// A file is refused for the first thing that is wrong with it, and the refusal names the path
/// as it was given.
pub proof fn law_refusal_is_the_first_fault<T>(local: LocalFile<T>)
    ensures
        !local.is_absolute ==> refusal(local) == Some(UploadError::NotAbsolute(local.display)),
        local.is_absolute && !local.is_file ==> refusal(local) == Some(
            UploadError::NoSuchFile(local.display),
        ),
        local.is_absolute && local.is_file ==> match local.resolved {
            Err(reason) => refusal(local) == Some(
                UploadError::Unresolved { path: local.display, reason },
            ),
            Ok(file) => (file.name is None ==> refusal(local) == Some(UploadError::NameNotUtf8))
                && (file.name is Some ==> refusal(local) is None),
        },
{
}

/// The Agent's command line is what was given; through the shell it is that behind the four words
/// that have the shell run its arguments as a command.
pub proof fn law_agent_runs_as_given<T>(command: Seq<T>)
    ensures
        ({
            let line = agent_arguments(command, false);
            line.len() == command.len() && begins_with_given(line, command)
        }),
        ({
            let line = agent_arguments(command, true);
            &&& line.len() == command.len() + 4
            &&& line[0] == ArgumentModel::<T>::Text("zsh"@)
            &&& line[1] == ArgumentModel::<T>::Text("-lic"@)
            &&& line[2] == ArgumentModel::<T>::Text("\"$@\""@)
            &&& line[3] == ArgumentModel::<T>::Text("agentdrop-proxy"@)
            &&& begins_with_given(line.subrange(4, line.len() as int), command)
        }),
{
    let line = agent_arguments(command, true);
    assert forall|i: int| 0 <= i < command.len() implies #[trigger] line.subrange(
        4,
        line.len() as int,
    )[i] == ArgumentModel::Given(command[i]) by {
        assert(line[i + 4] == ArgumentModel::Given(command[i]));
    }
}

/// An uploader's two runs: both begin with the given options. The first ends with the
/// destination and the command that makes and prints the session's directory. The second sends
/// the file to the destination, into a directory that the remote shell reads back as it is.
pub proof fn law_uploader_runs<T>(
    options: Seq<T>,
    path: T,
    destination: Seq<char>,
    session_id: Seq<char>,
    directory: Seq<char>,
)
    ensures
        ({
            let line = make_directory_argv(options, destination, session_id);
            let n = options.len() as int;
            &&& line.len() == n + 2
            &&& begins_with_given(line, options)
            &&& line[n] == ArgumentModel::<T>::Text(destination)
            &&& line[n + 1] == ArgumentModel::<T>::Text(
                "umask 077; d=\"$HOME/.cache/agentdrop/"@ + session_id
                    + "\"; mkdir -p -- \"$d\" && cd -- \"$d\" && pwd -P"@,
            )
        }),
        ({
            let line = transfer_argv(options, path, destination, directory);
            let n = options.len() as int;
            &&& line.len() == n + 4
            &&& begins_with_given(line, options)
            &&& line[n] == ArgumentModel::<T>::Text("--upload-file"@)
            &&& line[n + 1] == ArgumentModel::Given(path)
            &&& line[n + 2] == ArgumentModel::<T>::Text(destination)
            &&& exists|word: Seq<char>|
                #[trigger] shell_word(word, Quotes::Outside, seq![]) == Some(directory) && line[n
                    + 3] == ArgumentModel::<T>::Text("trz -q -y "@ + word)
        }),
{
    let n = options.len() as int;
    let made = make_directory_argv(options, destination, session_id);
    let sent = transfer_argv(options, path, destination, directory);
    law_shell_reads_quoted_text_back(directory);
    assert(made[n + 1] == ArgumentModel::<T>::Text(make_directory_command(session_id)));
    assert(sent[n] == ArgumentModel::<T>::Text("--upload-file"@));
    assert(sent[n + 1] == ArgumentModel::Given(path));
    assert(sent[n + 2] == ArgumentModel::<T>::Text(destination));
    assert(sent[n + 3] == ArgumentModel::<T>::Text(transfer_command(directory)));
    assert(shell_word(quoted(directory), Quotes::Outside, seq![]) == Some(directory));
}

} // verus!

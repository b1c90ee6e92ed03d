//! Uploads into one remote directory per session, made on first use.
use vstd::prelude::*;
use vstd::utf8::{decode_utf8, valid_utf8};
use crate::argv::{argument_models, extend_copied, given, push_given, push_text, words, Argument, ArgumentModel};
use crate::connect::{CommandOutput, LaunchError};
use crate::identifier::{fresh_identifier, is_identifier};
use crate::shell::{quoted, shell_quote};
use crate::text::{char_vec, lossy_chars, lossy_text, pieces, text_models, trim, trimmed, utf8_text};

verus! {

/// Why an upload did not happen.
#[derive(Debug, PartialEq, Eq)]
pub enum UploaderError {
    NotAFile(String),
    NameNotUnicode,
    NotLaunched(LaunchError),
    DirectoryFailed { status: String, stderr: Vec<u8> },
    ResponseNotUtf8,
    NoAbsoluteDirectory,
    UploadFailed { status: String, stderr: Vec<u8> },
}

/// The text of an uploader error, without the reason that the system gave.
pub open spec fn uploader_error_text(error: UploaderError) -> Seq<char> {
    match error {
        UploaderError::NotAFile(path) => "only regular files are supported: "@ + path@,
        UploaderError::NameNotUnicode => "local file name is not valid Unicode"@,
        UploaderError::NotLaunched(error) => "failed to launch "@ + error.program@,
        UploaderError::DirectoryFailed { status, stderr } =>
            run_report("failed to create remote drop directory with "@, status@, lossy_chars(stderr@)),
        UploaderError::ResponseNotUtf8 => "remote directory response was not valid UTF-8"@,
        UploaderError::NoAbsoluteDirectory => "tssh did not return an absolute remote directory"@,
        UploaderError::UploadFailed { status, stderr } =>
            run_report("tssh upload failed with "@, status@, lossy_chars(stderr@)),
    }
}

/// The report of a run of `tssh` that failed: what failed, its exit status, and what it
/// complained of.
pub open spec fn run_report(what: Seq<char>, status: Seq<char>, stderr: Seq<char>) -> Seq<char> {
    what + status + ": "@ + trimmed(stderr)
}

/// The report of a run of `tssh` that failed.
pub fn run_failure_text(what: &str, status: &str, stderr: &str) -> (text: String)
    ensures
        text@ == run_report(what@, status@, stderr@),
{
    let mut text: String = what.to_owned();
    text.append(status);
    text.append(": ");
    text.append(trim(stderr));
    text
}

impl UploaderError {
    /// The text of the error, without the reason that the system gave.
    pub fn message(&self) -> (text: String)
        ensures
            text@ == uploader_error_text(*self),
    {
        let mut text: String = String::new();
        match self {
            UploaderError::NotAFile(path) => {
                text.append("only regular files are supported: ");
                text.append(path.as_str());
            },
            UploaderError::NameNotUnicode => {
                text.append("local file name is not valid Unicode");
            },
            UploaderError::NotLaunched(error) => {
                text.append("failed to launch ");
                text.append(error.program.as_str());
            },
            UploaderError::DirectoryFailed { status, stderr } => {
                let complaint: String = lossy_text(stderr);
                text = run_failure_text(
                    "failed to create remote drop directory with ",
                    status.as_str(),
                    complaint.as_str(),
                );
            },
            UploaderError::ResponseNotUtf8 => {
                text.append("remote directory response was not valid UTF-8");
            },
            UploaderError::NoAbsoluteDirectory => {
                text.append("tssh did not return an absolute remote directory");
            },
            UploaderError::UploadFailed { status, stderr } => {
                let complaint: String = lossy_text(stderr);
                text = run_failure_text(
                    "tssh upload failed with ",
                    status.as_str(),
                    complaint.as_str(),
                );
            },
        }
        assert(text@ =~= uploader_error_text(*self));
        text
    }
}

/// The last of `lines` that is an absolute path once the white space around it is gone.
pub open spec fn last_absolute(lines: Seq<Seq<char>>) -> Option<Seq<char>>
    decreases lines.len(),
{
    if lines.len() == 0 {
        None
    } else {
        let line = trimmed(lines.last());
        if line.len() > 0 && line[0] == '/' {
            Some(line)
        } else {
            last_absolute(lines.drop_last())
        }
    }
}

/// What [`last_absolute`] finds is an absolute path.
proof fn lemma_last_absolute(lines: Seq<Seq<char>>)
    ensures
        last_absolute(lines) matches Some(line) ==> line.len() > 0 && line[0] == '/',
    decreases lines.len(),
{
    if lines.len() > 0 {
        lemma_last_absolute(lines.drop_last());
    }
}

/// The lines of a text.
fn split_lines(text: &str) -> (lines: Vec<String>)
    ensures
        text_models(lines@) == pieces(text@, '\n'),
{
    let chars: Vec<char> = char_vec(text);
    let n: usize = chars.len();
    let mut lines: Vec<String> = Vec::new();
    let mut current: String = String::new();
    let mut i: usize = 0;
    proof {
        assert(text@.subrange(0, 0) =~= seq![]);
        assert(text_models(lines@).push(current@) =~= seq![Seq::<char>::empty()]);
    }
    while i < n
        invariant
            chars@ == text@,
            n == chars@.len(),
            i <= n,
            pieces(text@.subrange(0, i as int), '\n') == text_models(lines@).push(current@),
        decreases n - i,
    {
        let c: char = chars[i];
        let ghost before = text_models(lines@).push(current@);
        proof {
            assert(text@.subrange(0, i + 1).drop_last() =~= text@.subrange(0, i as int));
            assert(text@.subrange(0, i + 1).last() == c);
            assert(before.drop_last() =~= text_models(lines@));
        }
        if c == '\n' {
            lines.push(current);
            current = String::new();
            assert(text_models(lines@) =~= before);
        } else {
            current.push(c);
        }
        i = i + 1;
    }
    assert(text@.subrange(0, n as int) =~= text@);
    let ghost done = text_models(lines@).push(current@);
    lines.push(current);
    assert(text_models(lines@) =~= done);
    lines
}

/// The remote directory in what the remote command printed: its last line that is an
/// absolute path.
pub fn remote_directory(output: &str) -> (directory: Option<String>)
    ensures
        match directory {
            Some(text) => last_absolute(pieces(output@, '\n')) == Some(text@),
            None => last_absolute(pieces(output@, '\n')) is None,
        },
{
    let lines: Vec<String> = split_lines(output);
    let ghost all = text_models(lines@);
    let mut i: usize = lines.len();
    assert(all.subrange(0, i as int) =~= all);
    while i > 0
        invariant
            i <= lines@.len(),
            all == text_models(lines@),
            all == pieces(output@, '\n'),
            last_absolute(all) == last_absolute(all.subrange(0, i as int)),
        decreases i,
    {
        let line: &str = trim(lines[i - 1].as_str());
        proof {
            assert(all.subrange(0, i as int).last() == lines@[i - 1]@);
            assert(all.subrange(0, i as int).drop_last() =~= all.subrange(0, i - 1));
        }
        if line.unicode_len() > 0 && line.get_char(0) == '/' {
            return Some(line.to_owned());
        }
        i = i - 1;
    }
    None
}

/// A local file that is to be uploaded, as the file system knows it. It has no `name` where
/// that is not Unicode.
pub struct LocalUpload<T> {
    pub path: T,
    pub display: String,
    pub is_file: bool,
    pub name: Option<String>,
}

/// What an upload needs next: the arguments of a run of `tssh`.
pub enum UploaderStep<T> {
    /// The remote directory has to be made first.
    MakeDirectory(Vec<Argument<T>>),
    /// The file can be sent; afterwards it stands at `remote_path`.
    Transfer { argv: Vec<Argument<T>>, remote_path: String },
}

/// The remote command that makes the directory of a session and prints where it is.
pub open spec fn make_directory_command(session_id: Seq<char>) -> Seq<char> {
    "umask 077; d=\"$HOME/.cache/agentdrop/"@ + session_id
        + "\"; mkdir -p -- \"$d\" && cd -- \"$d\" && pwd -P"@
}

/// The remote command that receives a file into a directory.
pub open spec fn transfer_command(directory: Seq<char>) -> Seq<char> {
    "trz -q -y "@ + quoted(directory)
}

/// The arguments for making the directory of a session.
pub open spec fn make_directory_argv<T>(
    options: Seq<T>,
    destination: Seq<char>,
    session_id: Seq<char>,
) -> Seq<ArgumentModel<T>> {
    given(options) + words(seq![destination, make_directory_command(session_id)])
}

/// The arguments for sending a file.
pub open spec fn transfer_argv<T>(
    options: Seq<T>,
    path: T,
    destination: Seq<char>,
    directory: Seq<char>,
) -> Seq<ArgumentModel<T>> {
    (given(options) + words(seq!["--upload-file"@])).push(ArgumentModel::Given(path)) + words(
        seq![destination, transfer_command(directory)],
    )
}

/// What a run of the command that makes the remote directory comes to: the last line it printed
/// that is an absolute path, if it started, succeeded and printed UTF-8 with such a line.
pub open spec fn made_directory(run: Result<CommandOutput, LaunchError>) -> Result<
    Seq<char>,
    UploaderError,
> {
    match run {
        Err(error) => Err(UploaderError::NotLaunched(error)),
        Ok(output) => if !output.success {
            Err(UploaderError::DirectoryFailed { status: output.status, stderr: output.stderr })
        } else if !valid_utf8(output.stdout@) {
            Err(UploaderError::ResponseNotUtf8)
        } else {
            match last_absolute(pieces(decode_utf8(output.stdout@), '\n')) {
                Some(directory) => Ok(directory),
                None => Err(UploaderError::NoAbsoluteDirectory),
            }
        },
    }
}

/// The remote directory: the one that is `known`, or else what came of making it.
pub open spec fn ensured(
    known: Option<Seq<char>>,
    run: Result<CommandOutput, LaunchError>,
) -> Result<Seq<char>, UploaderError> {
    match known {
        Some(directory) => Ok(directory),
        None => made_directory(run),
    }
}

/// What is known of the remote directory afterwards.
pub open spec fn remembered(
    known: Option<Seq<char>>,
    run: Result<CommandOutput, LaunchError>,
) -> Option<Seq<char>> {
    match ensured(known, run) {
        Ok(directory) => Some(directory),
        Err(_) => None,
    }
}

/// Uploads to one destination. The remote directory is made once and then remembered.
pub struct Uploader<T> {
    tssh: T,
    destination: String,
    tssh_args: Vec<T>,
    session_id: String,
    remote_dir: Option<String>,
}

impl<T: Copy> Uploader<T> {
    /// The program that uploads.
    pub closed spec fn program(&self) -> T {
        self.tssh
    }

    /// Where it uploads to.
    pub closed spec fn destination(&self) -> Seq<char> {
        self.destination@
    }

    /// The options that it is given each time.
    pub closed spec fn options(&self) -> Seq<T> {
        self.tssh_args@
    }

    /// The session whose directory is used.
    pub closed spec fn session_id(&self) -> Seq<char> {
        self.session_id@
    }

    /// The remote directory, once it is known.
    pub closed spec fn remote_dir(&self) -> Option<Seq<char>> {
        match self.remote_dir {
            Some(directory) => Some(directory@),
            None => None,
        }
    }

    /// What every uploader satisfies: a remote directory that is known is an absolute path.
    pub open spec fn wf(&self) -> bool {
        self.remote_dir() matches Some(directory) ==> directory.len() > 0 && directory[0] == '/'
    }

    /// An uploader for a new session.
    pub fn new(tssh: T, destination: String, tssh_args: Vec<T>) -> (uploader: Self)
        ensures
            uploader.program() == tssh,
            uploader.destination() == destination@,
            uploader.options() == tssh_args@,
            is_identifier(uploader.session_id()),
            uploader.remote_dir() is None,
            uploader.wf(),
    {
        Uploader {
            tssh,
            destination,
            tssh_args,
            session_id: fresh_identifier(),
            remote_dir: None,
        }
    }

    /// The program and the arguments with which every run starts.
    pub fn base_command(&self) -> (command: (T, Vec<Argument<T>>))
        ensures
            command.0 == self.program(),
            argument_models(command.1@) == given(self.options()),
    {
        let mut argv: Vec<Argument<T>> = Vec::new();
        extend_copied(&mut argv, &self.tssh_args);
        assert(argument_models(argv@) =~= given(self.options()));
        (self.tssh, argv)
    }

    /// What the upload of a file needs next: a run that makes the remote directory while that
    /// is not known, and never again afterwards. Only regular files with a Unicode name are
    /// uploaded.
    pub fn upload(&self, file: &LocalUpload<T>) -> (step: Result<UploaderStep<T>, UploaderError>)
        ensures
            if !file.is_file {
                step == Err::<UploaderStep<T>, _>(UploaderError::NotAFile(file.display))
            } else {
                match (file.name, self.remote_dir()) {
                    (None, _) => step == Err::<UploaderStep<T>, _>(UploaderError::NameNotUnicode),
                    (Some(name), None) => {
                        &&& step matches Ok(UploaderStep::MakeDirectory(argv))
                        &&& argument_models(argv@) == make_directory_argv(
                            self.options(),
                            self.destination(),
                            self.session_id(),
                        )
                    },
                    (Some(name), Some(directory)) => {
                        &&& step matches Ok(UploaderStep::Transfer { argv, remote_path })
                        &&& argument_models(argv@) == transfer_argv(
                            self.options(),
                            file.path,
                            self.destination(),
                            directory,
                        )
                        &&& remote_path@ == directory + "/"@ + name@
                    },
                }
            },
    {
        if !file.is_file {
            return Err(UploaderError::NotAFile(file.display.clone()));
        }
        let name: &String = match &file.name {
            Some(name) => name,
            None => {
                return Err(UploaderError::NameNotUnicode);
            },
        };
        match &self.remote_dir {
            None => Ok(UploaderStep::MakeDirectory(self.make_directory())),
            Some(directory) => {
                let mut command: String = "trz -q -y ".to_owned();
                command.append(shell_quote(directory.as_str()).as_str());
                let (_, mut argv) = self.base_command();
                push_text(&mut argv, "--upload-file");
                push_given(&mut argv, file.path);
                push_text(&mut argv, self.destination.as_str());
                push_text(&mut argv, command.as_str());
                assert(argument_models(argv@) =~= transfer_argv(
                    self.options(),
                    file.path,
                    self.destination(),
                    directory@,
                ));
                let mut remote_path: String = directory.clone();
                remote_path.append("/");
                remote_path.append(name.as_str());
                Ok(UploaderStep::Transfer { argv, remote_path })
            },
        }
    }

    /// The arguments of the run that makes the remote directory.
    fn make_directory(&self) -> (argv: Vec<Argument<T>>)
        ensures
            argument_models(argv@) == make_directory_argv(
                self.options(),
                self.destination(),
                self.session_id(),
            ),
    {
        let (_, mut argv) = self.base_command();
        let mut command: String = "umask 077; d=\"$HOME/.cache/agentdrop/".to_owned();
        command.append(self.session_id.as_str());
        command.append("\"; mkdir -p -- \"$d\" && cd -- \"$d\" && pwd -P");
        push_text(&mut argv, self.destination.as_str());
        push_text(&mut argv, command.as_str());
        assert(argument_models(argv@) =~= make_directory_argv(
            self.options(),
            self.destination(),
            self.session_id(),
        ));
        argv
    }

    /// The remote directory. One that is known stays as it is, and `run` does not count.
    /// Otherwise `run` is what came of making it: a directory that was made is remembered, and
    /// where that failed, nothing changes.
    pub fn ensure_remote_dir(&mut self, run: Result<CommandOutput, LaunchError>) -> (result: Result<
        String,
        UploaderError,
    >)
        ensures
            match result {
                Ok(directory) => ensured(old(self).remote_dir(), run) == Ok::<_, UploaderError>(
                    directory@,
                ),
                Err(error) => ensured(old(self).remote_dir(), run) == Err::<Seq<char>, _>(error),
            },
            final(self).remote_dir() == remembered(old(self).remote_dir(), run),
            old(self).remote_dir() is Some ==> result is Ok && final(self).remote_dir() == old(
                self,
            ).remote_dir(),
            final(self).program() == old(self).program(),
            final(self).destination() == old(self).destination(),
            final(self).options() == old(self).options(),
            final(self).session_id() == old(self).session_id(),
            old(self).wf() ==> final(self).wf(),
    {
        if let Some(directory) = &self.remote_dir {
            return Ok(directory.clone());
        }
        let output: CommandOutput = match run {
            Ok(output) => output,
            Err(error) => {
                return Err(UploaderError::NotLaunched(error));
            },
        };
        if !output.success {
            return Err(
                UploaderError::DirectoryFailed { status: output.status, stderr: output.stderr },
            );
        }
        let directory: Option<String> = match utf8_text(&output.stdout) {
            Some(text) => remote_directory(text),
            None => {
                return Err(UploaderError::ResponseNotUtf8);
            },
        };
        match directory {
            Some(directory) => {
                proof {
                    lemma_last_absolute(pieces(decode_utf8(output.stdout@), '\n'));
                }
                self.remote_dir = Some(directory.clone());
                Ok(directory)
            },
            None => Err(UploaderError::NoAbsoluteDirectory),
        }
    }
}

/// What came of sending a file: where it stands, or why it does not.
pub fn finish_transfer(remote_path: String, run: Result<CommandOutput, LaunchError>) -> (result:
    Result<String, UploaderError>)
    ensures
        result == (match run {
            Err(error) => Err(UploaderError::NotLaunched(error)),
            Ok(output) => if output.success {
                Ok(remote_path)
            } else {
                Err(
                    UploaderError::UploadFailed { status: output.status, stderr: output.stderr },
                )
            },
        }),
{
    match run {
        Err(error) => Err(UploaderError::NotLaunched(error)),
        Ok(output) => if output.success {
            Ok(remote_path)
        } else {
            Err(UploaderError::UploadFailed { status: output.status, stderr: output.stderr })
        },
    }
}

} // verus!

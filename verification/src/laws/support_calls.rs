//! What calls on text, paths, images, the console and the uploader give, stated of their
//! arguments and results.
use vstd::prelude::*;
use vstd::utf8::{decode_utf8, valid_utf8};
use crate::argv::{argument_models, Argument, ArgumentModel};
use crate::clipboard::{
    capture_image_to_temp, capture_under, image_dimensions, is_capture_of, CapturedImage,
    ClipboardContent, ClipboardError, ClipboardImage,
};
use crate::connect::{CommandOutput, LaunchError};
use crate::console::virtual_terminal_mode;
use crate::identifier::is_identifier;
use crate::laws::commands::{begins_with_given, law_uploader_runs};
use crate::laws::images::{
    law_captured_image_is_the_one_on_the_clipboard, law_clipboard_errors_name_their_cause,
    law_faults_are_found_in_order, law_known_directory_stays,
    law_made_directory_is_what_was_printed, law_sound_images_have_four_bytes_per_pixel,
};
use crate::laws::paths::{
    law_climbing_is_a_parent_component, law_names_tell_paths_apart, law_spelling_does_not_matter,
    parent_stands_at,
};
use crate::laws::texts::{
    holds_absolute_path, is_blank, law_decimal_reads_back, law_last_absolute_line_counts,
    law_run_report_shows_everything, law_trimmed_end_keeps_the_rest,
    law_trimmed_text_is_the_middle, law_uploader_errors_name_their_cause, number_of, says,
};
use crate::path::{absolute, has_parent_component, paths_match};
use crate::shell::{law_shell_reads_quoted_text_back, shell_quote, shell_word, Quotes};
use crate::text::{
    decimal, ends_with, is_white_space, lossy_chars, pieces, starts_with, trim, trim_end, trimmed,
};
use crate::uploader::{
    finish_transfer, made_directory, remote_directory, run_failure_text, LocalUpload, Uploader,
    UploaderError, UploaderStep,
};

verus! {

/// Trimming takes off white space at the ends and nothing else.
pub proof fn law_trimming_takes_off_white_space(s: &str, both: &str, end: &str)
    requires
        call_ensures(trim, (s,), both),
        call_ensures(trim_end, (s,), end),
    ensures
        both@.len() > 0 ==> !is_white_space(both@.first()) && !is_white_space(both@.last()),
        exists|front: Seq<char>, back: Seq<char>| #[trigger]
            is_blank(front) && #[trigger] is_blank(back) && s@ == front + both@ + back,
        end@.is_prefix_of(s@),
        is_blank(s@.subrange(end@.len() as int, s@.len() as int)),
        end@.len() > 0 ==> !is_white_space(end@.last()),
{
    law_trimmed_text_is_the_middle(s@);
    law_trimmed_end_keeps_the_rest(s@);
}

/// A number in decimal reads back, and a text begins and ends with what it begins and ends with.
pub proof fn law_numbers_and_affixes(
    n: u64,
    text: String,
    s: &str,
    affix: &str,
    begins: bool,
    ends: bool,
)
    requires
        call_ensures(decimal, (n,), text),
        call_ensures(starts_with, (s, affix), begins),
        call_ensures(ends_with, (s, affix), ends),
    ensures
        number_of(text@) == n,
        text@.len() > 0 && (text@[0] == '0' ==> n == 0),
        forall|i: int| 0 <= i < text@.len() ==> '0' <= #[trigger] text@[i] <= '9',
        begins <==> affix@.is_prefix_of(s@),
        ends <==> affix@.is_suffix_of(s@),
{
    law_decimal_reads_back(n as nat);
}

/// A path is absolute if it begins with a slash, climbs if `..` is one of its components, and two
/// names in one directory are one path only if they are equal. A doubled slash or a component
/// `.` between two others makes no other path.
pub proof fn law_paths_are_judged_by_their_bytes(
    path: &[u8],
    rooted: bool,
    parent: bool,
    a: &[u8],
    b: &[u8],
    same: bool,
    directory: Seq<u8>,
    x: Seq<u8>,
    y: Seq<u8>,
)
    requires
        call_ensures(absolute, (path,), rooted),
        call_ensures(has_parent_component, (path,), parent),
        call_ensures(paths_match, (a, b), same),
    ensures
        rooted <==> path@.len() > 0 && path@[0] == 0x2f,
        parent <==> exists|i: int| parent_stands_at(path@, i),
        a@ == b@ ==> same,
        a@ == x.push(0x2f) + y && (b@ == x.push(0x2f).push(0x2f) + y || b@ == x.push(0x2f).push(
            0x2e,
        ).push(0x2f) + y) ==> same,
        same ==> (a@.len() > 0 && a@[0] == 0x2f) == (b@.len() > 0 && b@[0] == 0x2f),
        crate::laws::paths::counts(x) && crate::laws::paths::counts(y) && !x.contains(0x2f)
            && !y.contains(0x2f) && a@ == directory.push(0x2f) + x && b@ == directory.push(0x2f)
            + y ==> (same <==> x == y),
{
    law_climbing_is_a_parent_component(path@);
    law_spelling_does_not_matter(x, y);
    law_spelling_does_not_matter(a@, b@);
    if crate::laws::paths::counts(x) && crate::laws::paths::counts(y) && !x.contains(0x2f)
        && !y.contains(0x2f) {
        law_names_tell_paths_apart(directory, x, y);
    }
}

/// A quoted text is read back by a shell as that text.
pub proof fn law_quoted_text_is_read_back(value: &str, word: String)
    requires
        call_ensures(shell_quote, (value,), word),
    ensures
        shell_word(word@, Quotes::Outside, seq![]) == Some(value@),
{
    law_shell_reads_quoted_text_back(value@);
}

/// The console's mode gains the one bit and keeps all others.
pub proof fn law_console_mode_gains_one_bit(original_mode: u32, mode: u32)
    requires
        call_ensures(virtual_terminal_mode, (original_mode,), mode),
    ensures
        mode & 0x0200 == 0x0200,
        mode & !0x0200u32 == original_mode & !0x0200u32,
{
}

/// The dimensions of an image are given exactly if it has an extent that a PNG can have and four
/// bytes for each pixel, and are then its own.
pub proof fn law_dimensions_are_those_of_a_sound_image(
    image: ClipboardImage,
    dimensions: Result<(u32, u32), ClipboardError>,
)
    requires
        call_ensures(image_dimensions, (&image,), dimensions),
    ensures
        ({
            let size = image.width * image.height * 4;
            &&& dimensions is Ok <==> {
                &&& 0 < image.width <= u32::MAX
                &&& 0 < image.height <= u32::MAX
                &&& image.bytes@.len() == size
                &&& size <= usize::MAX
            }
            &&& dimensions matches Ok((width, height)) ==> width as int == image.width as int
                && height as int == image.height as int
            &&& dimensions == Err::<(u32, u32), _>(ClipboardError::ZeroDimensions) <==> image.width
                == 0 || image.height == 0
            &&& dimensions == Err::<(u32, u32), _>(ClipboardError::DimensionsOverflow)
                <==> image.width > 0 && image.height > 0 && size > usize::MAX
            &&& dimensions matches Err(ClipboardError::BufferLength { actual, expected }) ==> actual
                == image.bytes@.len() && expected == size && actual != expected
            &&& image.width > 0 && image.height > 0 && size <= usize::MAX && image.bytes@.len()
                != size ==> dimensions is Err && dimensions->Err_0 is BufferLength
            &&& dimensions == Err::<(u32, u32), _>(ClipboardError::WidthTooLarge) ==> image.width
                > u32::MAX
            &&& dimensions == Err::<(u32, u32), _>(ClipboardError::HeightTooLarge) ==> image.width
                <= u32::MAX && image.height > u32::MAX
        }),
{
    law_sound_images_have_four_bytes_per_pixel(image);
    law_faults_are_found_in_order(image);
}

/// What is captured of a sound image is the image, in a file of its own; without an image nothing
/// is captured, and a failure is passed on with its reason.
pub proof fn law_image_is_captured(
    image: ClipboardImage,
    reason: String,
    id: &str,
    found: Result<Option<CapturedImage>, ClipboardError>,
    none: Result<Option<CapturedImage>, ClipboardError>,
    unopened: Result<Option<CapturedImage>, ClipboardError>,
    unread: Result<Option<CapturedImage>, ClipboardError>,
)
    requires
        call_ensures(capture_under, (ClipboardContent::Image(image), id), found),
        call_ensures(capture_under, (ClipboardContent::NoImage, id), none),
        call_ensures(capture_under, (ClipboardContent::OpenFailed(reason), id), unopened),
        call_ensures(capture_under, (ClipboardContent::ReadFailed(reason), id), unread),
    ensures
        found is Ok <==> {
            &&& 0 < image.width <= u32::MAX
            &&& 0 < image.height <= u32::MAX
            &&& image.bytes@.len() == image.width * image.height * 4
            &&& image.width * image.height * 4 <= usize::MAX
        },
        found is Ok ==> found->Ok_0 is Some && is_file_of(found->Ok_0->0, image, id@),
        none == Ok::<_, ClipboardError>(None::<CapturedImage>),
        unopened == Err::<Option<CapturedImage>, _>(ClipboardError::OpenFailed(reason)),
        unread == Err::<Option<CapturedImage>, _>(ClipboardError::ReadFailed(reason)),
{
    law_sound_images_have_four_bytes_per_pixel(image);
    if found is Ok {
        law_captured_image_is_the_one_on_the_clipboard(found->Ok_0->0, image, id@);
    }
}

/// A captured image with the extent and bytes of the one on the clipboard, under this name.
pub open spec fn is_file_of(captured: CapturedImage, image: ClipboardImage, id: Seq<char>) -> bool {
    &&& captured.width as int == image.width as int
    &&& captured.height as int == image.height as int
    &&& captured.bytes@ == image.bytes@
    &&& captured.location@.len() == 3
    &&& captured.location@[0]@ == "agentdrop"@
    &&& captured.location@[1]@ == "clipboard"@
    &&& captured.location@[2]@ == "clipboard-"@ + id + ".png"@
}

/// The same under an identifier of its own.
pub proof fn law_image_is_captured_under_its_own_name(
    image: ClipboardImage,
    reason: String,
    found: Result<Option<CapturedImage>, ClipboardError>,
    none: Result<Option<CapturedImage>, ClipboardError>,
    unopened: Result<Option<CapturedImage>, ClipboardError>,
    unread: Result<Option<CapturedImage>, ClipboardError>,
)
    requires
        call_ensures(capture_image_to_temp, (ClipboardContent::Image(image),), found),
        call_ensures(capture_image_to_temp, (ClipboardContent::NoImage,), none),
        call_ensures(capture_image_to_temp, (ClipboardContent::OpenFailed(reason),), unopened),
        call_ensures(capture_image_to_temp, (ClipboardContent::ReadFailed(reason),), unread),
    ensures
        found is Ok <==> {
            &&& 0 < image.width <= u32::MAX
            &&& 0 < image.height <= u32::MAX
            &&& image.bytes@.len() == image.width * image.height * 4
            &&& image.width * image.height * 4 <= usize::MAX
        },
        found is Ok ==> found->Ok_0 is Some && exists|id: Seq<char>| #[trigger]
            is_identifier(id) && is_file_of(found->Ok_0->0, image, id),
        none == Ok::<_, ClipboardError>(None::<CapturedImage>),
        unopened == Err::<Option<CapturedImage>, _>(ClipboardError::OpenFailed(reason)),
        unread == Err::<Option<CapturedImage>, _>(ClipboardError::ReadFailed(reason)),
{
    law_sound_images_have_four_bytes_per_pixel(image);
    if found is Ok {
        let captured = found->Ok_0->0;
        let id = choose|id: Seq<char>| #[trigger]
            is_identifier(id) && is_capture_of(captured, image, id);
        law_captured_image_is_the_one_on_the_clipboard(captured, image, id);
        assert(is_identifier(id) && is_file_of(captured, image, id));
    }
}

/// The text of a clipboard error gives the reason whole and the numbers of bytes as numbers.
pub proof fn law_clipboard_error_gives_its_cause(error: ClipboardError, text: String)
    requires
        call_ensures(ClipboardError::message, (&error,), text),
    ensures
        match error {
            ClipboardError::OpenFailed(reason) => says(
                text@,
                "failed to open the system clipboard: "@,
                reason@,
            ),
            ClipboardError::ReadFailed(reason) => says(
                text@,
                "failed to read clipboard image: "@,
                reason@,
            ),
            ClipboardError::BufferLength { actual, expected } => exists|a: Seq<char>, b: Seq<char>|
                #[trigger] number_of(a) == actual && #[trigger] number_of(b) == expected && text@
                    == "clipboard image buffer has "@ + a + " bytes; expected "@ + b
                    + " RGBA bytes"@,
            _ => true,
        },
{
    match error {
        ClipboardError::OpenFailed(reason) => law_clipboard_errors_name_their_cause(reason, 0, 0),
        ClipboardError::ReadFailed(reason) => law_clipboard_errors_name_their_cause(reason, 0, 0),
        ClipboardError::BufferLength { actual, expected } => law_clipboard_errors_name_their_cause(
            arbitrary::<String>(),
            actual,
            expected,
        ),
        _ => {},
    }
}

/// The directory is the last absolute path that stands on a line of the output.
pub proof fn law_directory_is_the_last_absolute_line(output: &str, directory: Option<String>)
    requires
        call_ensures(remote_directory, (output,), directory),
    ensures
        ({
            let lines = pieces(output@, '\n');
            match directory {
                Some(path) => exists|i: int|
                    {
                        &&& 0 <= i < lines.len()
                        &&& path@ == trimmed(#[trigger] lines[i])
                        &&& holds_absolute_path(lines[i])
                        &&& forall|j: int| i < j < lines.len() ==> !holds_absolute_path(
                            #[trigger] lines[j],
                        )
                    },
                None => forall|i: int|
                    0 <= i < lines.len() ==> !holds_absolute_path(#[trigger] lines[i]),
            }
        }),
{
    law_last_absolute_line_counts(pieces(output@, '\n'));
}

/// A new uploader has what it was given and knows no directory; each of its runs starts with its
/// program and options.
pub proof fn law_uploader_has_what_it_was_given<T: Copy>(
    tssh: T,
    destination: String,
    tssh_args: Vec<T>,
    uploader: Uploader<T>,
    command: (T, Vec<Argument<T>>),
)
    requires
        call_ensures(Uploader::<T>::new, (tssh, destination, tssh_args), uploader),
        call_ensures(Uploader::<T>::base_command, (&uploader,), command),
    ensures
        uploader.destination() == destination@,
        uploader.options() == tssh_args@,
        uploader.remote_dir() is None,
        is_identifier(uploader.session_id()),
        command.0 == tssh,
        command.1@.len() == tssh_args@.len(),
        begins_with_given(argument_models(command.1@), tssh_args@),
{
    assert(argument_models(command.1@).len() == command.1@.len());
}

/// An upload of a regular file with a name needs the directory first, and then sends the file
/// into it, to stand there under its name; any other file is refused.
pub proof fn law_uploader_sends_into_its_directory<T: Copy>(
    uploader: Uploader<T>,
    file: LocalUpload<T>,
    step: Result<UploaderStep<T>, UploaderError>,
)
    requires
        call_ensures(Uploader::<T>::upload, (&uploader, &file), step),
    ensures
        step is Ok <==> file.is_file && file.name is Some,
        !file.is_file ==> step == Err::<UploaderStep<T>, _>(UploaderError::NotAFile(file.display)),
        file.is_file && file.name is None ==> step == Err::<UploaderStep<T>, _>(
            UploaderError::NameNotUnicode,
        ),
        step matches Ok(UploaderStep::MakeDirectory(argv)) ==> {
            let line = argument_models(argv@);
            let n = uploader.options().len() as int;
            &&& uploader.remote_dir() is None
            &&& line.len() == n + 2
            &&& begins_with_given(line, uploader.options())
            &&& line[n] == ArgumentModel::<T>::Text(uploader.destination())
            &&& line[n + 1] == ArgumentModel::<T>::Text(
                "umask 077; d=\"$HOME/.cache/agentdrop/"@ + uploader.session_id()
                    + "\"; mkdir -p -- \"$d\" && cd -- \"$d\" && pwd -P"@,
            )
        },
        step matches Ok(UploaderStep::Transfer { argv, remote_path }) ==> {
            let line = argument_models(argv@);
            let n = uploader.options().len() as int;
            &&& uploader.remote_dir() matches Some(directory)
            &&& line.len() == n + 4
            &&& begins_with_given(line, uploader.options())
            &&& line[n] == ArgumentModel::<T>::Text("--upload-file"@)
            &&& line[n + 1] == ArgumentModel::Given(file.path)
            &&& line[n + 2] == ArgumentModel::<T>::Text(uploader.destination())
            &&& exists|word: Seq<char>| #[trigger]
                shell_word(word, Quotes::Outside, seq![]) == Some(directory) && line[n + 3]
                    == ArgumentModel::<T>::Text("trz -q -y "@ + word)
            &&& remote_path@ == directory + "/"@ + file.name->0@
        },
{
    let directory = match uploader.remote_dir() {
        Some(directory) => directory,
        None => seq![],
    };
    law_uploader_runs(
        uploader.options(),
        file.path,
        uploader.destination(),
        uploader.session_id(),
        directory,
    );
}

/// A known directory is the answer and stays; otherwise the answer is the last absolute path on
/// a line that the run printed, and is remembered, or the run failed and nothing is.
pub proof fn law_uploader_keeps_its_directory<T: Copy>(
    uploader: &mut Uploader<T>,
    run: Result<CommandOutput, LaunchError>,
    result: Result<String, UploaderError>,
)
    requires
        call_ensures(Uploader::<T>::ensure_remote_dir, (uploader, run), result),
    ensures
        old(uploader).remote_dir() matches Some(directory) ==> {
            &&& result matches Ok(given)
            &&& given@ == directory
            &&& final(uploader).remote_dir() == Some(directory)
        },
        old(uploader).remote_dir() is None ==> match result {
            Ok(given) => {
                let lines = pieces(decode_utf8(run->Ok_0.stdout@), '\n');
                &&& run is Ok && run->Ok_0.success && valid_utf8(run->Ok_0.stdout@)
                &&& final(uploader).remote_dir() == Some(given@)
                &&& exists|i: int|
                    {
                        &&& 0 <= i < lines.len()
                        &&& given@ == trimmed(#[trigger] lines[i])
                        &&& holds_absolute_path(lines[i])
                        &&& forall|j: int| i < j < lines.len() ==> !holds_absolute_path(
                            #[trigger] lines[j],
                        )
                    }
            },
            Err(error) => {
                &&& final(uploader).remote_dir() is None
                &&& run is Ok && run->Ok_0.success && valid_utf8(run->Ok_0.stdout@)
                    ==> error is NoAbsoluteDirectory && forall|i: int|
                    #![trigger pieces(decode_utf8(run->Ok_0.stdout@), '\n')[i]]
                    0 <= i < pieces(decode_utf8(run->Ok_0.stdout@), '\n').len()
                        ==> !holds_absolute_path(
                        pieces(decode_utf8(run->Ok_0.stdout@), '\n')[i],
                    )
            },
        },
        final(uploader).destination() == old(uploader).destination(),
        final(uploader).options() == old(uploader).options(),
        final(uploader).session_id() == old(uploader).session_id(),
{
    match old(uploader).remote_dir() {
        Some(directory) => law_known_directory_stays(directory, run),
        None => {
            law_known_directory_stays(seq![], run);
            match run {
                Ok(output) => law_made_directory_is_what_was_printed(
                    output,
                    arbitrary::<LaunchError>(),
                ),
                Err(launch) => law_made_directory_is_what_was_printed(
                    arbitrary::<CommandOutput>(),
                    launch,
                ),
            }
            assert(result is Ok <==> made_directory(run) is Ok);
        },
    }
}

/// A transfer succeeds exactly if `tssh` ran and succeeded.
pub proof fn law_transfer_is_reported(
    path: String,
    output: CommandOutput,
    launch: LaunchError,
    ended: Result<String, UploaderError>,
    unstarted: Result<String, UploaderError>,
)
    requires
        call_ensures(finish_transfer, (path, Ok(output)), ended),
        call_ensures(finish_transfer, (path, Err(launch)), unstarted),
    ensures
        output.success ==> ended == Ok::<_, UploaderError>(path),
        !output.success ==> ended == Err::<String, _>(
            UploaderError::UploadFailed { status: output.status, stderr: output.stderr },
        ),
        unstarted == Err::<String, _>(UploaderError::NotLaunched(launch)),
{
}

/// The text of an uploader error says what failed and gives its cause.
pub proof fn law_uploader_error_gives_its_cause(error: UploaderError, text: String)
    requires
        call_ensures(UploaderError::message, (&error,), text),
    ensures
        match error {
            UploaderError::NotAFile(path) => says(
                text@,
                "only regular files are supported: "@,
                path@,
            ),
            UploaderError::NotLaunched(launch) => says(
                text@,
                "failed to launch "@,
                launch.program@,
            ),
            UploaderError::DirectoryFailed { status, stderr } => says(
                text@,
                "failed to create remote drop directory with "@ + status@,
                ": "@ + trimmed(lossy_chars(stderr@)),
            ),
            UploaderError::UploadFailed { status, stderr } => says(
                text@,
                "tssh upload failed with "@ + status@,
                ": "@ + trimmed(lossy_chars(stderr@)),
            ),
            _ => true,
        },
{
    let s = arbitrary::<String>();
    let v = arbitrary::<Vec<u8>>();
    let l = arbitrary::<LaunchError>();
    match error {
        UploaderError::NotAFile(path) => law_uploader_errors_name_their_cause(path, l, s, v),
        UploaderError::NotLaunched(launch) => law_uploader_errors_name_their_cause(s, launch, s, v),
        UploaderError::DirectoryFailed { status, stderr } => law_uploader_errors_name_their_cause(
            s,
            l,
            status,
            stderr,
        ),
        UploaderError::UploadFailed { status, stderr } => law_uploader_errors_name_their_cause(
            s,
            l,
            status,
            stderr,
        ),
        _ => {},
    }
}

/// The report of a failed run says what failed, how it ended and what was complained of.
pub proof fn law_failed_run_is_reported(what: &str, status: &str, stderr: &str, text: String)
    requires
        call_ensures(run_failure_text, (what, status, stderr), text),
    ensures
        says(text@, what@ + status@, ": "@ + trimmed(stderr@)),
{
    law_run_report_shows_everything(what@, status@, stderr@);
}

} // verus!

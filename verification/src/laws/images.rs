//! What holds of clipboard images and of the uploader's remote directory.
use vstd::prelude::*;
use vstd::utf8::{decode_utf8, valid_utf8};
use crate::clipboard::{
    clipboard_error_text, image_fault, image_location, is_capture_of, CapturedImage,
    ClipboardError, ClipboardImage,
};
use crate::connect::{CommandOutput, LaunchError};
use crate::laws::texts::{holds_absolute_path, law_decimal_reads_back, number_of, says};
use crate::text::{decimal_digits, pieces, text_models, trimmed};
use crate::uploader::{ensured, made_directory, remembered, UploaderError};

verus! {

/// An image is sound exactly if it has an extent that a PNG can have and four bytes for each
/// pixel.
pub proof fn law_sound_images_have_four_bytes_per_pixel(image: ClipboardImage)
    ensures
        image_fault(image) is None <==> {
            &&& 0 < image.width <= u32::MAX
            &&& 0 < image.height <= u32::MAX
            &&& image.bytes@.len() == image.width * image.height * 4
            &&& image.width * image.height * 4 <= usize::MAX
        },
{
}

/// Each fault is found where it is, the first of them counting: no extent, more bytes than can
/// be counted, another number of bytes than expected, and an extent that is too large.
pub proof fn law_faults_are_found_in_order(image: ClipboardImage)
    ensures
        ({
            let size = image.width * image.height * 4;
            let fault = image_fault(image);
            &&& fault == Some(ClipboardError::ZeroDimensions) <==> image.width == 0 || image.height
                == 0
            &&& fault == Some(ClipboardError::DimensionsOverflow) <==> image.width > 0
                && image.height > 0 && size > usize::MAX
            &&& fault matches Some(ClipboardError::BufferLength { actual, expected }) ==> actual
                == image.bytes@.len() && expected == size && actual != expected
            &&& image.width > 0 && image.height > 0 && size <= usize::MAX && image.bytes@.len()
                != size ==> fault is Some && fault->0 is BufferLength
            &&& fault == Some(ClipboardError::WidthTooLarge) ==> image.width > u32::MAX
            &&& fault == Some(ClipboardError::HeightTooLarge) ==> image.width <= u32::MAX
                && image.height > u32::MAX
            &&& !(fault matches Some(ClipboardError::OpenFailed(_)))
            &&& !(fault matches Some(ClipboardError::ReadFailed(_)))
        }),
{
    let bytes = image.bytes;
    assert(bytes@.len() == bytes.len());
}

/// A captured image has the extent and the bytes of the one on the clipboard, and a file of its
/// own, named by the whole identifier, in a directory of this program.
pub proof fn law_captured_image_is_the_one_on_the_clipboard(
    captured: CapturedImage,
    image: ClipboardImage,
    id: Seq<char>,
)
    requires
        is_capture_of(captured, image, id),
    ensures
        captured.width as int == image.width as int,
        captured.height as int == image.height as int,
        captured.bytes@ == image.bytes@,
        captured.location@.len() == 3,
        captured.location@[0]@ == "agentdrop"@,
        captured.location@[1]@ == "clipboard"@,
        captured.location@[2]@ == "clipboard-"@ + id + ".png"@,
{
    let names = text_models(captured.location@);
    assert(names.len() == 3);
    assert(names[0] == image_location(id)[0]);
    assert(names[1] == image_location(id)[1]);
    assert(names[2] == image_location(id)[2]);
}

/// A clipboard error gives the system's reason whole, and the two numbers of bytes as numbers.
pub proof fn law_clipboard_errors_name_their_cause(reason: String, actual: usize, expected: usize)
    ensures
        says(
            clipboard_error_text(ClipboardError::OpenFailed(reason)),
            "failed to open the system clipboard: "@,
            reason@,
        ),
        says(
            clipboard_error_text(ClipboardError::ReadFailed(reason)),
            "failed to read clipboard image: "@,
            reason@,
        ),
        exists|a: Seq<char>, b: Seq<char>|
            #[trigger] number_of(a) == actual && #[trigger] number_of(b) == expected
                && clipboard_error_text(ClipboardError::BufferLength { actual, expected })
                == "clipboard image buffer has "@ + a + " bytes; expected "@ + b + " RGBA bytes"@,
{
    let opened = clipboard_error_text(ClipboardError::OpenFailed(reason));
    let read = clipboard_error_text(ClipboardError::ReadFailed(reason));
    let front = "failed to open the system clipboard: "@;
    let other = "failed to read clipboard image: "@;
    assert(opened.subrange(0, front.len() as int) =~= front);
    assert(opened.subrange(opened.len() - reason@.len(), opened.len() as int) =~= reason@);
    assert(read.subrange(0, other.len() as int) =~= other);
    assert(read.subrange(read.len() - reason@.len(), read.len() as int) =~= reason@);
    law_decimal_reads_back(actual as nat);
    law_decimal_reads_back(expected as nat);
    assert(number_of(decimal_digits(actual as nat)) == actual);
    assert(number_of(decimal_digits(expected as nat)) == expected);
}

/// A list of texts is what its texts are, one by one.
pub proof fn law_texts_are_what_they_hold(texts: Seq<String>)
    ensures
        text_models(texts).len() == texts.len(),
        forall|i: int| 0 <= i < texts.len() ==> #[trigger] text_models(texts)[i] == texts[i]@,
{
}

/// The remote directory is the last absolute path on a line of what a run printed, if the run
/// started and succeeded and printed text; otherwise the error tells which of these failed.
pub proof fn law_made_directory_is_what_was_printed(
    output: CommandOutput,
    launch: LaunchError,
)
    ensures
        made_directory(Err(launch)) == Err::<Seq<char>, _>(UploaderError::NotLaunched(launch)),
        !output.success ==> made_directory(Ok(output)) == Err::<Seq<char>, _>(
            UploaderError::DirectoryFailed { status: output.status, stderr: output.stderr },
        ),
        output.success && !valid_utf8(output.stdout@) ==> made_directory(Ok(output)) == Err::<
            Seq<char>,
            _,
        >(UploaderError::ResponseNotUtf8),
        output.success && valid_utf8(output.stdout@) ==> {
            let lines = pieces(decode_utf8(output.stdout@), '\n');
            match made_directory(Ok(output)) {
                Ok(directory) => exists|i: int|
                    {
                        &&& 0 <= i < lines.len()
                        &&& directory == trimmed(#[trigger] lines[i])
                        &&& holds_absolute_path(lines[i])
                        &&& forall|j: int| i < j < lines.len() ==> !holds_absolute_path(
                            #[trigger] lines[j],
                        )
                    },
                Err(error) => error == UploaderError::NoAbsoluteDirectory && forall|i: int|
                    0 <= i < lines.len() ==> !holds_absolute_path(#[trigger] lines[i]),
            }
        },
{
    crate::laws::texts::law_last_absolute_line_counts(
        pieces(decode_utf8(output.stdout@), '\n'),
    );
}

/// A directory that is known is the answer, and stays known, whatever another run would come
/// to; while none is known, the answer is what came of the run, and only a directory is
/// remembered.
pub proof fn law_known_directory_stays(
    directory: Seq<char>,
    run: Result<CommandOutput, LaunchError>,
)
    ensures
        ensured(Some(directory), run) == Ok::<_, UploaderError>(directory),
        remembered(Some(directory), run) == Some(directory),
        ensured(None, run) == made_directory(run),
        match made_directory(run) {
            Ok(made) => remembered(None, run) == Some(made),
            Err(_) => remembered(None, run) is None,
        },
{
}

} // verus!

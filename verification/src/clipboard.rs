//! Images on the local clipboard.
use vstd::prelude::*;
use crate::identifier::{fresh_identifier, is_identifier};
use crate::text::{decimal, decimal_digits, text_models};

verus! {

/// An image as the clipboard gives it: rows of pixels of four bytes each.
#[derive(Debug, PartialEq, Eq)]
pub struct ClipboardImage {
    pub width: usize,
    pub height: usize,
    pub bytes: Vec<u8>,
}

/// What came of looking at the clipboard.
#[derive(Debug, PartialEq, Eq)]
pub enum ClipboardContent {
    Image(ClipboardImage),
    NoImage,
    OpenFailed(String),
    ReadFailed(String),
}

/// Why the image on the clipboard is not used.
#[derive(Debug, PartialEq, Eq)]
pub enum ClipboardError {
    OpenFailed(String),
    ReadFailed(String),
    ZeroDimensions,
    DimensionsOverflow,
    BufferLength { actual: usize, expected: usize },
    WidthTooLarge,
    HeightTooLarge,
}

/// The text of a clipboard error.
pub open spec fn clipboard_error_text(error: ClipboardError) -> Seq<char> {
    match error {
        ClipboardError::OpenFailed(reason) => "failed to open the system clipboard: "@ + reason@,
        ClipboardError::ReadFailed(reason) => "failed to read clipboard image: "@ + reason@,
        ClipboardError::ZeroDimensions => "clipboard image has invalid zero dimensions"@,
        ClipboardError::DimensionsOverflow => "clipboard image dimensions overflow"@,
        ClipboardError::BufferLength { actual, expected } => "clipboard image buffer has "@
            + decimal_digits(actual as nat) + " bytes; expected "@ + decimal_digits(
            expected as nat,
        ) + " RGBA bytes"@,
        ClipboardError::WidthTooLarge =>
            "clipboard image width is too large: out of range integral type conversion attempted"@,
        ClipboardError::HeightTooLarge =>
            "clipboard image height is too large: out of range integral type conversion attempted"@,
    }
}

impl ClipboardError {
    /// The text of the error.
    pub fn message(&self) -> (text: String)
        ensures
            text@ == clipboard_error_text(*self),
    {
        let mut text: String = String::new();
        match self {
            ClipboardError::OpenFailed(reason) => {
                text.append("failed to open the system clipboard: ");
                text.append(reason.as_str());
            },
            ClipboardError::ReadFailed(reason) => {
                text.append("failed to read clipboard image: ");
                text.append(reason.as_str());
            },
            ClipboardError::ZeroDimensions => {
                text.append("clipboard image has invalid zero dimensions");
            },
            ClipboardError::DimensionsOverflow => {
                text.append("clipboard image dimensions overflow");
            },
            ClipboardError::BufferLength { actual, expected } => {
                text.append("clipboard image buffer has ");
                text.append(decimal(*actual as u64).as_str());
                text.append(" bytes; expected ");
                text.append(decimal(*expected as u64).as_str());
                text.append(" RGBA bytes");
            },
            ClipboardError::WidthTooLarge => {
                text.append(
                    "clipboard image width is too large: out of range integral type conversion attempted",
                );
            },
            ClipboardError::HeightTooLarge => {
                text.append(
                    "clipboard image height is too large: out of range integral type conversion attempted",
                );
            },
        }
        assert(text@ =~= clipboard_error_text(*self));
        text
    }
}

/// What is wrong with an image, if anything; the first of the faults counts.
pub open spec fn image_fault(image: ClipboardImage) -> Option<ClipboardError> {
    let size = image.width * image.height * 4;
    if image.width == 0 || image.height == 0 {
        Some(ClipboardError::ZeroDimensions)
    } else if size > usize::MAX {
        Some(ClipboardError::DimensionsOverflow)
    } else if image.bytes@.len() != size {
        Some(
            ClipboardError::BufferLength {
                actual: image.bytes@.len() as usize,
                expected: size as usize,
            },
        )
    } else if image.width > u32::MAX {
        Some(ClipboardError::WidthTooLarge)
    } else if image.height > u32::MAX {
        Some(ClipboardError::HeightTooLarge)
    } else {
        None
    }
}

/// The width and height of an image, if it is sound.
pub fn image_dimensions(image: &ClipboardImage) -> (dimensions: Result<(u32, u32), ClipboardError>)
    ensures
        match dimensions {
            Ok((width, height)) => {
                &&& image_fault(*image) is None
                &&& width == image.width
                &&& height == image.height
            },
            Err(error) => image_fault(*image) == Some(error),
        },
{
    let width: usize = image.width;
    let height: usize = image.height;
    if width == 0 || height == 0 {
        return Err(ClipboardError::ZeroDimensions);
    }
    let pixels: usize = match width.checked_mul(height) {
        Some(pixels) => pixels,
        None => {
            assert(width * height * 4 > usize::MAX);
            return Err(ClipboardError::DimensionsOverflow);
        },
    };
    let expected: usize = match pixels.checked_mul(4) {
        Some(expected) => expected,
        None => {
            return Err(ClipboardError::DimensionsOverflow);
        },
    };
    let actual: usize = image.bytes.len();
    if actual != expected {
        return Err(ClipboardError::BufferLength { actual, expected });
    }
    if width > u32::MAX as usize {
        return Err(ClipboardError::WidthTooLarge);
    }
    if height > u32::MAX as usize {
        return Err(ClipboardError::HeightTooLarge);
    }
    Ok((width as u32, height as u32))
}

/// An image that is to be written to a temporary PNG file. `location` is its path below the
/// directory for temporary files, component by component.
#[derive(Debug, PartialEq, Eq)]
pub struct CapturedImage {
    pub width: u32,
    pub height: u32,
    pub bytes: Vec<u8>,
    pub location: Vec<String>,
}

/// Where an image goes, below the directory for temporary files.
pub open spec fn image_location(id: Seq<char>) -> Seq<Seq<char>> {
    seq!["agentdrop"@, "clipboard"@, "clipboard-"@ + id + ".png"@]
}

/// The captured image is this one, under that identifier.
pub open spec fn is_capture_of(captured: CapturedImage, image: ClipboardImage, id: Seq<char>) -> bool {
    &&& captured.width == image.width
    &&& captured.height == image.height
    &&& captured.bytes@ == image.bytes@
    &&& text_models(captured.location@) == image_location(id)
}

/// What to do about the clipboard, with the identifier under which an image is to be kept:
/// nothing where it holds none, and an error where it cannot be read or is not sound.
pub fn capture_under(content: ClipboardContent, id: &str) -> (captured: Result<
    Option<CapturedImage>,
    ClipboardError,
>)
    ensures
        match content {
            ClipboardContent::NoImage => captured == Ok::<_, ClipboardError>(
                None::<CapturedImage>,
            ),
            ClipboardContent::OpenFailed(reason) => captured == Err::<
                Option<CapturedImage>,
                _,
            >(ClipboardError::OpenFailed(reason)),
            ClipboardContent::ReadFailed(reason) => captured == Err::<
                Option<CapturedImage>,
                _,
            >(ClipboardError::ReadFailed(reason)),
            ClipboardContent::Image(image) => match image_fault(image) {
                Some(error) => captured == Err::<Option<CapturedImage>, _>(error),
                None => captured matches Ok(Some(found)) && is_capture_of(found, image, id@),
            },
        },
{
    match content {
        ClipboardContent::NoImage => Ok(None),
        ClipboardContent::OpenFailed(reason) => Err(ClipboardError::OpenFailed(reason)),
        ClipboardContent::ReadFailed(reason) => Err(ClipboardError::ReadFailed(reason)),
        ClipboardContent::Image(image) => match image_dimensions(&image) {
            Err(error) => Err(error),
            Ok((width, height)) => {
                let mut name: String = "clipboard-".to_owned();
                name.append(id);
                name.append(".png");
                let mut location: Vec<String> = Vec::new();
                location.push("agentdrop".to_owned());
                location.push("clipboard".to_owned());
                location.push(name);
                assert(text_models(location@) =~= image_location(id@));
                Ok(Some(CapturedImage { width, height, bytes: image.bytes, location }))
            },
        },
    }
}

/// What to do about the clipboard, an image being kept under a fresh identifier.
pub fn capture_image_to_temp(content: ClipboardContent) -> (captured: Result<
    Option<CapturedImage>,
    ClipboardError,
>)
    ensures
        match content {
            ClipboardContent::NoImage => captured == Ok::<_, ClipboardError>(
                None::<CapturedImage>,
            ),
            ClipboardContent::OpenFailed(reason) => captured == Err::<
                Option<CapturedImage>,
                _,
            >(ClipboardError::OpenFailed(reason)),
            ClipboardContent::ReadFailed(reason) => captured == Err::<
                Option<CapturedImage>,
                _,
            >(ClipboardError::ReadFailed(reason)),
            ClipboardContent::Image(image) => match image_fault(image) {
                Some(error) => captured == Err::<Option<CapturedImage>, _>(error),
                None => {
                    &&& captured matches Ok(Some(found))
                    &&& exists|id: Seq<char>| #[trigger]
                        is_identifier(id) && is_capture_of(found, image, id)
                },
            },
        },
{
    let id: String = fresh_identifier();
    capture_under(content, id.as_str())
}

} // verus!

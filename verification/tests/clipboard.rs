use agentdrop::clipboard::{
    capture_image_to_temp, capture_under, image_dimensions, CapturedImage, ClipboardContent,
    ClipboardError, ClipboardImage,
};

fn image(width: usize, height: usize, bytes: usize) -> ClipboardImage {
    ClipboardImage { width, height, bytes: vec![7; bytes] }
}

#[test]
fn a_sound_image_is_captured() {
    assert_eq!(image_dimensions(&image(2, 3, 24)), Ok((2, 3)));
    let captured = capture_under(ClipboardContent::Image(image(2, 3, 24)), "x");
    assert_eq!(
        captured,
        Ok(Some(CapturedImage {
            width: 2,
            height: 3,
            bytes: vec![7; 24],
            location: vec![
                "agentdrop".to_string(),
                "clipboard".to_string(),
                "clipboard-x.png".to_string(),
            ],
        }))
    );
}

#[test]
fn each_capture_has_a_file_of_its_own() {
    let mut names: Vec<String> = Vec::new();
    for _ in 0..2 {
        let captured = match capture_image_to_temp(ClipboardContent::Image(image(1, 1, 4))) {
            Ok(Some(captured)) => captured,
            _ => panic!("the image is sound"),
        };
        assert_eq!(captured.location.len(), 3);
        let id = captured.location[2]
            .strip_prefix("clipboard-")
            .and_then(|rest| rest.strip_suffix(".png"))
            .unwrap_or_default()
            .to_string();
        assert_eq!(id.len(), 32);
        assert!(id.bytes().all(|b| b.is_ascii_digit() || (b'a'..=b'f').contains(&b)));
        names.push(id);
    }
    assert_ne!(names[0], names[1]);
}

#[test]
fn no_image_is_no_failure() {
    assert_eq!(capture_image_to_temp(ClipboardContent::NoImage), Ok(None));
}

#[test]
fn a_clipboard_that_cannot_be_read_is_a_failure() {
    let text = |content: ClipboardContent| match capture_image_to_temp(content) {
        Ok(_) => panic!("there is no image"),
        Err(error) => error.message(),
    };
    assert_eq!(
        text(ClipboardContent::OpenFailed("busy".to_string())),
        "failed to open the system clipboard: busy"
    );
    assert_eq!(
        text(ClipboardContent::ReadFailed("odd format".to_string())),
        "failed to read clipboard image: odd format"
    );
}

#[test]
fn faulty_images_are_refused() {
    let fault = |image: ClipboardImage| match capture_image_to_temp(ClipboardContent::Image(image)) {
        Ok(_) => panic!("the image is faulty"),
        Err(error) => error,
    };
    let text = "clipboard image has invalid zero dimensions";
    assert_eq!(fault(image(0, 3, 0)).message(), text);
    assert_eq!(fault(image(usize::MAX, 0, 0)).message(), text);
    let text = "clipboard image dimensions overflow";
    assert_eq!(fault(image(usize::MAX, 2, 0)).message(), text);
    assert_eq!(fault(image(usize::MAX / 4 + 1, 1, 0)).message(), text);
    let error = fault(image(10, 20, 79));
    assert_eq!(error, ClipboardError::BufferLength { actual: 79, expected: 800 });
    assert_eq!(error.message(), "clipboard image buffer has 79 bytes; expected 800 RGBA bytes");
}

#[test]
fn oversized_images_have_texts() {
    assert_eq!(
        ClipboardError::WidthTooLarge.message(),
        "clipboard image width is too large: out of range integral type conversion attempted"
    );
    assert_eq!(
        ClipboardError::HeightTooLarge.message(),
        "clipboard image height is too large: out of range integral type conversion attempted"
    );
}

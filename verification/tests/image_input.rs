use leg::error::LegError;
use leg::image_input::{
    check_image_size, detect_media_type, validate_message_image_limits, ImageBatch,
    MAX_BASE64_IMAGE_BYTES, MAX_IMAGE_REQUEST_BYTES, MAX_RAW_IMAGE_BYTES,
};
use leg::model::{ContentBlock, ImageSource, Message, Role};

#[test]
fn detects_supported_image_formats_from_file_signatures() {
    for (bytes, media_type) in [
        (&b"\xff\xd8\xff"[..], "image/jpeg"),
        (&b"\x89PNG\r\n\x1a\n"[..], "image/png"),
        (&b"GIF87a"[..], "image/gif"),
        (&b"GIF89a"[..], "image/gif"),
        (&b"RIFFxxxxWEBP"[..], "image/webp"),
    ] {
        assert_eq!(detect_media_type(bytes), Some(media_type));
    }
    assert_eq!(detect_media_type(b"not an image"), None);
}

#[test]
fn validates_both_per_image_and_combined_request_limits() {
    let over_limit = "x".repeat(MAX_BASE64_IMAGE_BYTES + 1);
    let messages = [Message::new(
        Role::User,
        vec![ContentBlock::Image {
            source: ImageSource::Base64 {
                media_type: "image/png".to_string(),
                data: over_limit,
            },
        }],
    )];
    assert!(matches!(
        validate_message_image_limits(&messages),
        Err(LegError::Usage(_))
    ));

    let image_data = "x".repeat(MAX_IMAGE_REQUEST_BYTES / 4 + 1);
    assert!(image_data.len() <= MAX_BASE64_IMAGE_BYTES);
    let messages = [Message::new(
        Role::User,
        (0..4)
            .map(|_| ContentBlock::Image {
                source: ImageSource::Base64 {
                    media_type: "image/png".to_string(),
                    data: image_data.clone(),
                },
            })
            .collect(),
    )];
    assert!(matches!(
        validate_message_image_limits(&messages),
        Err(LegError::Usage(_))
    ));
}

#[test]
fn loads_image_as_messages_api_base64_block() {
    let mut batch = ImageBatch::new();
    batch
        .attach("fixture.png", b"\x89PNG\r\n\x1a\nimage")
        .expect("loads image");

    assert_eq!(
        batch.images,
        vec![ContentBlock::Image {
            source: ImageSource::Base64 {
                media_type: "image/png".to_string(),
                data: "iVBORw0KGgppbWFnZQ==".to_string(),
            },
        }]
    );
    assert_eq!(batch.encoded_total, 20);
}

#[test]
fn rejects_unsupported_image_data_with_a_clear_error() {
    let mut batch = ImageBatch::new();
    let err = batch.attach("notes.txt", b"not an image").unwrap_err();

    assert!(matches!(err, LegError::Usage(_)));
    assert!(err.to_string().contains("JPEG, PNG, GIF, or WebP"));
    assert!(err.to_string().contains("\"notes.txt\""));
    assert!(batch.images.is_empty());
}

#[test]
fn rejects_images_above_the_base64_size_limit_before_reading_them() {
    let err = check_image_size("big.png", MAX_RAW_IMAGE_BYTES as u64 + 1).unwrap_err();

    assert!(matches!(err, LegError::Usage(_)));
    assert!(err.to_string().contains("10 MB base64-encoded size limit"));
    assert!(check_image_size("big.png", MAX_RAW_IMAGE_BYTES as u64).is_ok());
}

#[test]
fn images_that_add_up_over_the_request_limit_are_refused() {
    let mut png = b"\x89PNG\r\n\x1a\n".to_vec();
    png.resize(MAX_RAW_IMAGE_BYTES, 0);
    let mut batch = ImageBatch::new();
    for _ in 0..3 {
        batch.attach("page.png", &png).expect("within the limit");
    }
    assert_eq!(batch.encoded_total, 30_000_000);
    let err = batch.attach("page.png", &png).unwrap_err();
    assert!(err
        .to_string()
        .contains("combined --image data exceeds the 32 MB Messages API request limit"));
    assert_eq!(batch.images.len(), 3);
    png.push(0);
    let err = batch.attach("page.png", &png).unwrap_err();
    assert!(err.to_string().contains("10 MB base64-encoded size limit"));
}

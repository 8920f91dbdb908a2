//! Tests for the blob image request/resolve pipeline.

use scene_bridge::blob::{
    blob_buffer_size, bytes_per_pixel, BlobImageDescriptor, BlobImageError, BlobImagePipeline,
    BlobRasterOutcome, ImageFormat,
};
use scene_bridge::ids::ImageKey;

fn descriptor(width: u32, height: u32, format: ImageFormat) -> BlobImageDescriptor {
    BlobImageDescriptor { width, height, format }
}

#[test]
fn bytes_per_pixel_per_format() {
    assert_eq!(bytes_per_pixel(ImageFormat::A8), Some(1));
    assert_eq!(bytes_per_pixel(ImageFormat::RGB8), Some(3));
    assert_eq!(bytes_per_pixel(ImageFormat::RGBA8), Some(4));
    assert_eq!(bytes_per_pixel(ImageFormat::BGRA8), Some(4));
    assert_eq!(bytes_per_pixel(ImageFormat::RGBAF32), Some(16));
    assert_eq!(bytes_per_pixel(ImageFormat::Invalid), None);
}

#[test]
fn buffer_size_is_width_height_bytes_per_pixel() {
    // 4 x 4 at four bytes per pixel.
    assert_eq!(blob_buffer_size(&descriptor(4, 4, ImageFormat::BGRA8)), Some(64));
    assert_eq!(blob_buffer_size(&descriptor(800, 600, ImageFormat::RGB8)), Some(1_440_000));
    assert_eq!(blob_buffer_size(&descriptor(0, 16, ImageFormat::A8)), Some(0));
    assert_eq!(blob_buffer_size(&descriptor(4, 4, ImageFormat::Invalid)), None);
    // An astronomically large request does not fit in memory.
    assert_eq!(blob_buffer_size(&descriptor(u32::MAX, u32::MAX, ImageFormat::RGBAF32)), None);
}

#[test]
fn request_then_resolve_returns_the_rasterized_result() {
    let mut pipeline = BlobImagePipeline::new();
    let key = ImageKey::new(1, 7);
    let desc = descriptor(2, 2, ImageFormat::RGBA8);
    let pixels: Vec<u8> = (0..16).collect();
    pipeline.request_blob_image(key, &desc, BlobRasterOutcome::Rendered(pixels.clone()));

    let result = pipeline.resolve_blob_image(key).unwrap();
    assert_eq!(result.width, 2);
    assert_eq!(result.height, 2);
    assert_eq!(result.data, pixels);

    // Resolve is destructive: a second resolve without an intervening
    // request reports an invalid key.
    assert_eq!(pipeline.resolve_blob_image(key), Err(BlobImageError::InvalidKey));
}

#[test]
fn resolving_an_unrequested_key_is_invalid() {
    let mut pipeline = BlobImagePipeline::new();
    assert_eq!(
        pipeline.resolve_blob_image(ImageKey::new(5, 5)),
        Err(BlobImageError::InvalidKey)
    );
}

#[test]
fn failed_callback_resolves_to_a_rendering_error() {
    // A 4x4 BGRA8 request whose callback always signals failure resolves
    // to a rendering error, not a crash.
    let mut pipeline = BlobImagePipeline::new();
    let key = ImageKey::new(2, 9);
    let desc = descriptor(4, 4, ImageFormat::BGRA8);
    pipeline.request_blob_image(key, &desc, BlobRasterOutcome::Failed);
    assert_eq!(pipeline.resolve_blob_image(key), Err(BlobImageError::Rendering));
    assert_eq!(pipeline.resolve_blob_image(key), Err(BlobImageError::InvalidKey));
}

#[test]
fn format_without_byte_size_is_a_request_error() {
    let mut pipeline = BlobImagePipeline::new();
    let key = ImageKey::new(2, 10);
    let desc = descriptor(4, 4, ImageFormat::Invalid);
    pipeline.request_blob_image(key, &desc, BlobRasterOutcome::Rendered(vec![0; 64]));
    assert_eq!(pipeline.resolve_blob_image(key), Err(BlobImageError::InvalidFormat));
}

#[test]
fn wrongly_sized_output_buffer_is_a_rendering_error() {
    let mut pipeline = BlobImagePipeline::new();
    let key = ImageKey::new(2, 11);
    let desc = descriptor(4, 4, ImageFormat::BGRA8);
    pipeline.request_blob_image(key, &desc, BlobRasterOutcome::Rendered(vec![0; 63]));
    assert_eq!(pipeline.resolve_blob_image(key), Err(BlobImageError::Rendering));
}

#[test]
fn a_key_can_be_requested_again_after_resolving() {
    let mut pipeline = BlobImagePipeline::new();
    let key = ImageKey::new(3, 3);
    let desc = descriptor(1, 1, ImageFormat::A8);
    pipeline.request_blob_image(key, &desc, BlobRasterOutcome::Rendered(vec![42]));
    assert!(pipeline.resolve_blob_image(key).is_ok());
    pipeline.request_blob_image(key, &desc, BlobRasterOutcome::Rendered(vec![43]));
    assert_eq!(pipeline.resolve_blob_image(key).unwrap().data, vec![43]);
}

#[test]
fn a_second_request_replaces_the_pending_result() {
    let mut pipeline = BlobImagePipeline::new();
    let key = ImageKey::new(3, 4);
    let desc = descriptor(1, 1, ImageFormat::A8);
    pipeline.request_blob_image(key, &desc, BlobRasterOutcome::Rendered(vec![1]));
    pipeline.request_blob_image(key, &desc, BlobRasterOutcome::Rendered(vec![2]));
    assert_eq!(pipeline.resolve_blob_image(key).unwrap().data, vec![2]);
    assert_eq!(pipeline.resolve_blob_image(key), Err(BlobImageError::InvalidKey));
}

#[test]
fn has_pending_tracks_requests() {
    let mut pipeline = BlobImagePipeline::new();
    let key = ImageKey::new(4, 4);
    assert!(!pipeline.has_pending(key));
    pipeline.request_blob_image(
        key,
        &descriptor(1, 1, ImageFormat::A8),
        BlobRasterOutcome::Rendered(vec![0]),
    );
    assert!(pipeline.has_pending(key));
    let _ = pipeline.resolve_blob_image(key);
    assert!(!pipeline.has_pending(key));
}

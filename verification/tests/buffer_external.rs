//! Tests for the byte-buffer ownership carrier and the external image
//! protocol.

use scene_bridge::buffer::ByteBufferHandle;
use scene_bridge::external::{
    decode_external_image, ExternalImage, ExternalImageBoundary, ExternalImageLockTracker,
    ExternalImageProtocolError, ExternalImageSource, EXTERNAL_IMAGE_TYPE_NATIVE,
    EXTERNAL_IMAGE_TYPE_RAW,
};
use scene_bridge::ids::ExternalImageId;

#[test]
fn byte_buffer_round_trip_preserves_length_and_contents() {
    let original: Vec<u8> = vec![1, 2, 3, 4, 5];
    let handle = ByteBufferHandle::from_buffer(original.clone());
    assert_eq!(handle.len(), 5);
    let back = handle.into_buffer();
    assert_eq!(back, original);
    assert_eq!(back.len(), 5);
    // `handle` was consumed by the conversion: no accessor on it can be
    // reached from here, so a second reconstruction is unrepresentable.
}

#[test]
fn byte_buffer_free_consumes_the_handle() {
    let handle = ByteBufferHandle::from_buffer(vec![9, 9, 9]);
    handle.free();
}

#[test]
fn byte_buffer_empty() {
    let handle = ByteBufferHandle::from_buffer(Vec::new());
    assert_eq!(handle.len(), 0);
    assert_eq!(handle.into_buffer(), Vec::<u8>::new());
}

fn boundary(image_type: u32) -> ExternalImageBoundary {
    ExternalImageBoundary {
        image_type,
        handle: 77,
        u0: 0,
        v0: 0,
        u1: 65536,
        v1: 65536,
        bytes: vec![10, 20, 30],
    }
}

#[test]
fn decode_native_texture_ignores_bytes() {
    let img: ExternalImage = decode_external_image(boundary(EXTERNAL_IMAGE_TYPE_NATIVE)).unwrap();
    assert_eq!(img.source, ExternalImageSource::NativeTexture(77));
    assert_eq!(img.u1, 65536);
}

#[test]
fn decode_raw_data_ignores_handle() {
    let img = decode_external_image(boundary(EXTERNAL_IMAGE_TYPE_RAW)).unwrap();
    assert_eq!(img.source, ExternalImageSource::RawData(vec![10, 20, 30]));
}

#[test]
fn decode_unknown_type_flag_is_rejected() {
    assert!(decode_external_image(boundary(2)).is_none());
    assert!(decode_external_image(boundary(u32::MAX)).is_none());
}

#[test]
fn lock_protocol_discipline() {
    let mut tracker = ExternalImageLockTracker::new();
    let id = ExternalImageId::new(42);
    let other = ExternalImageId::new(43);

    assert!(tracker.lock(id).is_ok());
    assert_eq!(
        tracker.lock(id),
        Err(ExternalImageProtocolError::AlreadyLocked)
    );
    // A different id has its own lock.
    assert!(tracker.lock(other).is_ok());

    assert!(tracker.unlock(id).is_ok());
    assert_eq!(tracker.unlock(id), Err(ExternalImageProtocolError::NotLocked));

    // Releasing while the other id is still locked is rejected.
    assert_eq!(
        tracker.release(other),
        Err(ExternalImageProtocolError::StillLocked)
    );
    assert!(tracker.unlock(other).is_ok());
    assert!(tracker.release(other).is_ok());

    // After release, the id cannot be locked again.
    assert_eq!(
        tracker.lock(other),
        Err(ExternalImageProtocolError::Released)
    );

    // The first id was never released and can be locked again.
    assert!(tracker.lock(id).is_ok());
}

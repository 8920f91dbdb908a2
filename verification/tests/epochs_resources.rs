//! Tests for the renderer-facing backend: resource tables, epoch
//! monotonicity, frame generation, and the drain-once epoch queue.

use scene_bridge::api::{
    image_descriptor_from_boundary, readback_buffer_size, ApiError, ImageDescriptor,
    RenderBackend,
};
use scene_bridge::blob::ImageFormat;
use scene_bridge::builder::{BuiltScene, SceneBuilder};
use scene_bridge::geometry::{ColorValue, IntRect};
use scene_bridge::ids::{Epoch, ExternalImageId, FontKey, IdNamespace, ImageKey, SceneId};

fn simple_scene(scene: SceneId) -> BuiltScene {
    let mut b = SceneBuilder::new(scene);
    b.begin(100, 100);
    let clip = b
        .new_clip_region(IntRect::new(0, 0, 100, 100), &Vec::new(), None)
        .unwrap();
    b.push_rect(IntRect::new(0, 0, 10, 10), clip, ColorValue::new(1, 2, 3, 255))
        .unwrap();
    let built = b.finalize().unwrap();
    built
}

fn image_descriptor() -> ImageDescriptor {
    image_descriptor_from_boundary(ImageFormat::RGBA8, 8, 8, 0, true)
}

fn set_scene(backend: &mut RenderBackend, scene: SceneId, epoch: u32) -> Result<(), ApiError> {
    let built = simple_scene(scene);
    backend.set_root_display_list(
        Epoch::new(epoch),
        scene,
        built.dl_descriptor,
        built.dl_data,
        built.aux_descriptor,
        built.aux_data,
    )
}

#[test]
fn epochs_strictly_increase_per_scene() {
    let mut backend = RenderBackend::new(IdNamespace { value: 1 });
    let scene = SceneId::new(1, 1);

    assert!(set_scene(&mut backend, scene, 1).is_ok());
    assert_eq!(backend.accepted_epoch(scene), Some(Epoch::new(1)));

    // The same epoch, or an older one, is stale.
    assert_eq!(set_scene(&mut backend, scene, 1), Err(ApiError::StaleEpoch));
    assert_eq!(set_scene(&mut backend, scene, 0), Err(ApiError::StaleEpoch));
    assert_eq!(backend.accepted_epoch(scene), Some(Epoch::new(1)));

    assert!(set_scene(&mut backend, scene, 2).is_ok());
    assert_eq!(backend.accepted_epoch(scene), Some(Epoch::new(2)));

    // A different scene keeps its own counter.
    let other = SceneId::new(1, 2);
    assert_eq!(backend.accepted_epoch(other), None);
    assert!(set_scene(&mut backend, other, 1).is_ok());
}

#[test]
fn render_and_flush_report_each_new_epoch_once() {
    let mut backend = RenderBackend::new(IdNamespace { value: 1 });
    let scene = SceneId::new(1, 1);

    assert_eq!(backend.current_epoch(scene), None);

    assert!(set_scene(&mut backend, scene, 1).is_ok());
    backend.generate_frame();
    backend.render();
    assert_eq!(backend.current_epoch(scene), Some(Epoch::new(1)));

    let mut q = backend.flush_rendered_epochs();
    assert_eq!(q.remaining(), 1);
    assert_eq!(q.next(), Some((scene, Epoch::new(1))));
    assert_eq!(q.next(), None);
    assert_eq!(q.next(), None);

    // Nothing new rendered: the next flush drains nothing.
    let mut q2 = backend.flush_rendered_epochs();
    assert_eq!(q2.remaining(), 0);
    assert_eq!(q2.next(), None);

    // A newer description and another pass are reported exactly once.
    assert!(set_scene(&mut backend, scene, 5).is_ok());
    backend.generate_frame();
    backend.render();
    assert_eq!(backend.current_epoch(scene), Some(Epoch::new(5)));
    let mut q3 = backend.flush_rendered_epochs();
    assert_eq!(q3.next(), Some((scene, Epoch::new(5))));
    assert_eq!(q3.next(), None);
}

#[test]
fn clear_display_list_obeys_the_same_epoch_rule() {
    let mut backend = RenderBackend::new(IdNamespace { value: 1 });
    let scene = SceneId::new(2, 2);
    assert!(backend.clear_root_display_list(Epoch::new(3), scene).is_ok());
    assert_eq!(backend.accepted_epoch(scene), Some(Epoch::new(3)));
    assert_eq!(
        backend.clear_root_display_list(Epoch::new(3), scene),
        Err(ApiError::StaleEpoch)
    );
    assert!(backend.clear_root_display_list(Epoch::new(4), scene).is_ok());
}

#[test]
fn malformed_scene_description_is_rejected() {
    let mut backend = RenderBackend::new(IdNamespace { value: 1 });
    let scene = SceneId::new(1, 1);
    let built = simple_scene(scene);
    let mut bad_descriptor = built.dl_descriptor;
    bad_descriptor.cmd_count += 1;
    assert_eq!(
        backend.set_root_display_list(
            Epoch::new(1),
            scene,
            bad_descriptor,
            built.dl_data,
            built.aux_descriptor,
            built.aux_data,
        ),
        Err(ApiError::MalformedSceneDescription)
    );
    assert_eq!(backend.accepted_epoch(scene), None);
}

#[test]
fn image_resource_lifecycle() {
    let mut backend = RenderBackend::new(IdNamespace { value: 7 });
    let key = ImageKey::new(7, 1);

    assert_eq!(backend.update_image(key, image_descriptor(), vec![1]), Err(ApiError::UnknownImage));
    assert_eq!(backend.delete_image(key), Err(ApiError::UnknownImage));

    backend.add_image(key, image_descriptor(), vec![0; 256]);
    assert!(backend.update_image(key, image_descriptor(), vec![1; 256]).is_ok());
    assert!(backend.delete_image(key).is_ok());
    assert_eq!(backend.delete_image(key), Err(ApiError::UnknownImage));

    // The other add flavors share the table.
    backend.add_blob_image(ImageKey::new(7, 2), image_descriptor(), vec![9, 9]);
    backend.add_external_image_handle(
        ImageKey::new(7, 3),
        image_descriptor(),
        ExternalImageId::new(77),
    );
    backend.add_external_image_buffer(
        ImageKey::new(7, 4),
        image_descriptor(),
        ExternalImageId::new(78),
    );
    assert!(backend.delete_image(ImageKey::new(7, 3)).is_ok());
}

#[test]
fn font_resource_lifecycle() {
    let mut backend = RenderBackend::new(IdNamespace { value: 7 });
    let key = FontKey::new(7, 1);
    assert_eq!(backend.delete_font(key), Err(ApiError::UnknownFont));
    backend.add_raw_font(key, vec![0, 1, 2, 3]);
    assert!(backend.delete_font(key).is_ok());
    assert_eq!(backend.delete_font(key), Err(ApiError::UnknownFont));
}

#[test]
fn frame_properties_merge_by_binding_id() {
    let mut backend = RenderBackend::new(IdNamespace { value: 1 });
    assert_eq!(backend.opacity_property(6), None);

    let transforms = Vec::new();
    let opacities = vec![(6u64, 32768i32), (8u64, 65536i32)];
    backend.generate_frame_with_properties(&transforms, &opacities);
    assert_eq!(backend.opacity_property(6), Some(32768));
    assert_eq!(backend.opacity_property(8), Some(65536));
    assert_eq!(backend.transform_property(6), None);

    // A later frame that names only one binding replaces it and keeps
    // the persisted state of the other.
    let opacities2 = vec![(8u64, 16384i32)];
    backend.generate_frame_with_properties(&transforms, &opacities2);
    assert_eq!(backend.opacity_property(6), Some(32768));
    assert_eq!(backend.opacity_property(8), Some(16384));
}

#[test]
fn namespace_root_and_window_are_recorded() {
    let mut backend = RenderBackend::new(IdNamespace { value: 12 });
    assert_eq!(backend.get_namespace(), IdNamespace { value: 12 });
    assert_eq!(backend.root_pipeline_id(), None);
    let scene = SceneId::new(12, 1);
    backend.set_root_pipeline(scene);
    assert_eq!(backend.root_pipeline_id(), Some(scene));
    backend.set_window_parameters(800, 600);
    assert_eq!(backend.window_parameters(), (800, 600));
}

#[test]
fn readback_needs_four_bytes_per_pixel() {
    assert_eq!(readback_buffer_size(800, 600), Some(1_920_000));
    assert_eq!(readback_buffer_size(0, 600), Some(0));
    assert_eq!(readback_buffer_size(u32::MAX, u32::MAX), None);
}

#[test]
fn epoch_ordering_helper() {
    assert!(Epoch::new(2).is_after(&Epoch::new(1)));
    assert!(!Epoch::new(1).is_after(&Epoch::new(1)));
    assert!(!Epoch::new(0).is_after(&Epoch::new(1)));
}

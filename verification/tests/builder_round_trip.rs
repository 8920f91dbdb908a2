//! Tests for the scene builder: depth balance, fail-fast protocol
//! errors, and the finalize / push-built-fragment round trip.

use scene_bridge::builder::{SceneBuilder, SceneError};
use scene_bridge::display::{
    BorderRadius, BorderSide, BorderStyle, BoxShadowClipMode, ClipRegion, ComplexClipValue,
    ExtendMode, GlyphInstance, GradientStopValue, ImageMask, ImageRendering, ItemRange,
    MixBlendMode, NinePatchDescriptor, RepeatMode,
};
use scene_bridge::geometry::{
    ColorValue, IntPoint, IntRect, IntSize, SideOffsets, TransformMatrix, UNIT_ONE,
};
use scene_bridge::ids::{FontKey, ImageKey, SceneId};

fn rect(x: i32, y: i32, w: i32, h: i32) -> IntRect {
    IntRect::new(x, y, w, h)
}

fn red() -> ColorValue {
    ColorValue::new(255, 0, 0, 255)
}

#[test]
fn scenario_one_group_one_leaf_round_trips() {
    // Create a builder, begin an 800x600 scene, push a stacking context
    // with literal opacity one half, push a rectangle, pop, finalize.
    let scene = SceneId::new(1, 2);
    let mut b = SceneBuilder::new(scene);
    b.begin(800, 600);
    let clip = b
        .new_clip_region(rect(0, 0, 800, 600), &Vec::new(), None)
        .unwrap();
    b.push_stacking_context(
        rect(10, 10, 100, 100),
        0,
        Some(UNIT_ONE / 2),
        Some(TransformMatrix::zero()),
        MixBlendMode::Normal,
    )
    .unwrap();
    b.push_rect(rect(20, 20, 50, 50), clip, red()).unwrap();
    b.pop_stacking_context().unwrap();
    assert!(b.end().is_ok());

    let expected_commands = b.commands.clone();
    let expected_aux = b.aux.clone();

    let built = b.finalize().unwrap();
    assert_eq!(built.dl_descriptor.cmd_count, 3);
    assert_eq!(built.dl_descriptor.group_count, 1);
    assert_eq!(built.dl_descriptor.leaf_count, 1);
    assert_eq!(built.aux_descriptor.entry_count, 0);
    assert_eq!(built.dl_data.len(), built.dl_descriptor.byte_len);
    assert_eq!(built.aux_data.len(), built.aux_descriptor.byte_len);

    // The builder is reset to the empty state.
    assert!(b.commands.is_empty());
    assert!(b.aux.is_empty());

    // A fresh builder for the same scene consumes the output and
    // reproduces an equivalent command and auxiliary sequence.
    let mut b2 = SceneBuilder::new(scene);
    b2.begin(800, 600);
    b2.push_built_fragment(
        built.dl_descriptor,
        built.dl_data,
        built.aux_descriptor,
        built.aux_data,
    )
    .unwrap();
    assert_eq!(b2.commands, expected_commands);
    assert_eq!(b2.aux, expected_aux);
}

#[test]
fn round_trip_covers_every_command_kind() {
    let scene = SceneId::new(3, 4);
    let mut b = SceneBuilder::new(scene);
    b.begin(1024, 768);

    let complex = vec![ComplexClipValue {
        rect: rect(5, 5, 90, 90),
        radius: BorderRadius::zero(),
    }];
    let mask = Some(ImageMask {
        image: ImageKey::new(9, 1),
        rect: rect(0, 0, 16, 16),
        repeat: true,
    });
    let clip = b.new_clip_region(rect(0, 0, 1024, 768), &complex, mask).unwrap();

    b.push_stacking_context(rect(-5, -5, 200, 200), 11, None, None, MixBlendMode::Multiply)
        .unwrap();
    b.push_clip_node(rect(0, 0, 500, 500), clip).unwrap();
    b.push_rect(rect(1, 2, 3, 4), clip, red()).unwrap();
    b.push_image(
        rect(0, 0, 64, 64),
        clip,
        IntSize::new(32, 32),
        IntSize::new(0, 0),
        ImageRendering::Pixelated,
        ImageKey::new(9, 2),
    )
    .unwrap();
    let glyphs = vec![
        GlyphInstance { index: 40, x: 0, y: 12 },
        GlyphInstance { index: 41, x: 8, y: 12 },
    ];
    b.push_text(
        rect(0, 0, 120, 20),
        clip,
        ColorValue::new(0, 0, 0, 255),
        FontKey::new(9, 3),
        &glyphs,
        14 * UNIT_ONE,
    )
    .unwrap();
    let side = BorderSide { color: red(), style: BorderStyle::Solid };
    b.push_border(
        rect(0, 0, 10, 10),
        clip,
        SideOffsets::new(1, 1, 1, 1),
        side,
        side,
        side,
        side,
        BorderRadius::zero(),
    )
    .unwrap();
    b.push_border_image(
        rect(0, 0, 10, 10),
        clip,
        SideOffsets::new(2, 2, 2, 2),
        ImageKey::new(9, 4),
        NinePatchDescriptor { width: 30, height: 30, slice: SideOffsets::new(10, 10, 10, 10) },
        SideOffsets::new(0, 0, 0, 0),
        RepeatMode::Stretch,
        RepeatMode::Round,
    )
    .unwrap();
    let stops = vec![
        GradientStopValue { offset: 0, color: red() },
        GradientStopValue { offset: UNIT_ONE, color: ColorValue::new(0, 0, 255, 255) },
    ];
    b.push_border_gradient(
        rect(0, 0, 10, 10),
        clip,
        SideOffsets::new(1, 1, 1, 1),
        IntPoint::new(0, 0),
        IntPoint::new(10, 10),
        &stops,
        ExtendMode::Clamp,
        SideOffsets::new(0, 0, 0, 0),
    )
    .unwrap();
    b.push_border_radial_gradient(
        rect(0, 0, 10, 10),
        clip,
        SideOffsets::new(1, 1, 1, 1),
        IntPoint::new(5, 5),
        IntSize::new(4, 4),
        &stops,
        ExtendMode::Repeat,
        SideOffsets::new(0, 0, 0, 0),
    )
    .unwrap();
    b.push_linear_gradient(
        rect(0, 0, 100, 100),
        clip,
        IntPoint::new(0, 0),
        IntPoint::new(100, 0),
        &stops,
        ExtendMode::Clamp,
        IntSize::new(100, 100),
        IntSize::new(0, 0),
    )
    .unwrap();
    b.push_radial_gradient(
        rect(0, 0, 100, 100),
        clip,
        IntPoint::new(50, 50),
        IntSize::new(40, 40),
        &stops,
        ExtendMode::Repeat,
        IntSize::new(100, 100),
        IntSize::new(0, 0),
    )
    .unwrap();
    b.push_box_shadow(
        rect(0, 0, 100, 100),
        clip,
        rect(10, 10, 80, 80),
        IntPoint::new(2, 2),
        ColorValue::new(0, 0, 0, 128),
        3 * UNIT_ONE,
        UNIT_ONE,
        UNIT_ONE / 2,
        BoxShadowClipMode::Outset,
    )
    .unwrap();
    b.push_iframe(rect(0, 0, 300, 300), clip, SceneId::new(3, 5)).unwrap();
    b.pop_clip_node().unwrap();
    b.pop_stacking_context().unwrap();
    assert!(b.end().is_ok());

    let expected_commands = b.commands.clone();
    let expected_aux = b.aux.clone();
    assert_eq!(expected_aux.len(), 1 + 2 + 4 * 2);

    let built = b.finalize().unwrap();
    assert_eq!(built.dl_descriptor.group_count, 1);
    assert_eq!(built.dl_descriptor.leaf_count, 11);
    assert_eq!(built.dl_descriptor.cmd_count, expected_commands.len());
    assert_eq!(built.aux_descriptor.entry_count, expected_aux.len());

    let mut b2 = SceneBuilder::new(scene);
    b2.begin(1024, 768);
    b2.push_built_fragment(
        built.dl_descriptor,
        built.dl_data,
        built.aux_descriptor,
        built.aux_data,
    )
    .unwrap();
    assert_eq!(b2.commands, expected_commands);
    assert_eq!(b2.aux, expected_aux);
}

#[test]
fn unbalanced_pop_is_rejected_not_ignored() {
    let mut b = SceneBuilder::new(SceneId::new(1, 1));
    b.begin(100, 100);
    assert_eq!(b.pop_stacking_context(), Err(SceneError::UnbalancedPop));
    // The rejected pop left no trace and the builder still works.
    assert!(b.commands.is_empty());
    b.push_stacking_context(rect(0, 0, 1, 1), 0, None, None, MixBlendMode::Normal)
        .unwrap();
    assert!(b.pop_stacking_context().is_ok());
    assert_eq!(b.pop_stacking_context(), Err(SceneError::UnbalancedPop));
}

#[test]
fn unbalanced_clip_pop_is_rejected() {
    let mut b = SceneBuilder::new(SceneId::new(1, 1));
    b.begin(100, 100);
    assert_eq!(b.pop_clip_node(), Err(SceneError::UnbalancedClipPop));
}

#[test]
fn finalize_with_open_contexts_is_rejected() {
    let mut b = SceneBuilder::new(SceneId::new(1, 1));
    b.begin(100, 100);
    b.push_stacking_context(rect(0, 0, 1, 1), 0, None, None, MixBlendMode::Normal)
        .unwrap();
    assert_eq!(b.end(), Err(SceneError::OpenContexts));
    assert!(matches!(b.finalize(), Err(SceneError::OpenContexts)));
    // After popping, finalize succeeds.
    b.pop_stacking_context().unwrap();
    assert!(b.finalize().is_ok());
}

#[test]
fn operations_on_a_builder_that_is_not_open_are_rejected() {
    let mut b = SceneBuilder::new(SceneId::new(1, 1));
    assert!(matches!(b.finalize(), Err(SceneError::NotOpen)));
    assert_eq!(b.end(), Err(SceneError::NotOpen));
    assert_eq!(b.pop_stacking_context(), Err(SceneError::NotOpen));
    let clip = ClipRegion {
        main: rect(0, 0, 1, 1),
        complex: ItemRange::empty(),
        mask: None,
    };
    assert_eq!(b.push_rect(rect(0, 0, 1, 1), clip, red()), Err(SceneError::NotOpen));
}

#[test]
fn out_of_bounds_clip_range_is_rejected() {
    let mut b = SceneBuilder::new(SceneId::new(1, 1));
    b.begin(100, 100);
    let bad_clip = ClipRegion {
        main: rect(0, 0, 1, 1),
        complex: ItemRange { start: 5, length: 1 },
        mask: None,
    };
    assert_eq!(
        b.push_rect(rect(0, 0, 1, 1), bad_clip, red()),
        Err(SceneError::RangeOutOfBounds)
    );
}

#[test]
fn malformed_fragment_is_rejected_and_changes_nothing() {
    let scene = SceneId::new(1, 1);
    let mut b = SceneBuilder::new(scene);
    b.begin(100, 100);
    let clip = b.new_clip_region(rect(0, 0, 100, 100), &Vec::new(), None).unwrap();
    b.push_rect(rect(0, 0, 1, 1), clip, red()).unwrap();
    let built = b.finalize().unwrap();

    let mut b2 = SceneBuilder::new(scene);
    b2.begin(100, 100);
    // Lie about the payload length in the descriptor.
    let mut bad_descriptor = built.dl_descriptor;
    bad_descriptor.byte_len += 4;
    assert_eq!(
        b2.push_built_fragment(
            bad_descriptor,
            built.dl_data,
            built.aux_descriptor,
            built.aux_data,
        ),
        Err(SceneError::MalformedFragment)
    );
    assert!(b2.commands.is_empty());
    assert!(b2.aux.is_empty());
}

#[test]
fn truncated_fragment_payload_is_rejected() {
    let scene = SceneId::new(1, 1);
    let mut b = SceneBuilder::new(scene);
    b.begin(100, 100);
    let clip = b.new_clip_region(rect(0, 0, 100, 100), &Vec::new(), None).unwrap();
    b.push_rect(rect(0, 0, 1, 1), clip, red()).unwrap();
    let built = b.finalize().unwrap();

    let mut dl_bytes = built.dl_data.into_buffer();
    dl_bytes.pop();
    let mut bad_descriptor = built.dl_descriptor;
    bad_descriptor.byte_len -= 1;

    let mut b2 = SceneBuilder::new(scene);
    b2.begin(100, 100);
    assert_eq!(
        b2.push_built_fragment(
            bad_descriptor,
            scene_bridge::buffer::ByteBufferHandle::from_buffer(dl_bytes),
            built.aux_descriptor,
            built.aux_data,
        ),
        Err(SceneError::MalformedFragment)
    );
}

#[test]
fn fragment_splices_after_existing_commands() {
    let scene = SceneId::new(2, 2);
    let mut b = SceneBuilder::new(scene);
    b.begin(10, 10);
    let clip = b.new_clip_region(rect(0, 0, 10, 10), &Vec::new(), None).unwrap();
    b.push_rect(rect(0, 0, 5, 5), clip, red()).unwrap();
    let fragment_commands = b.commands.clone();
    let built = b.finalize().unwrap();

    let mut host = SceneBuilder::new(scene);
    host.begin(10, 10);
    let host_clip = host.new_clip_region(rect(0, 0, 10, 10), &Vec::new(), None).unwrap();
    host.push_rect(rect(1, 1, 2, 2), host_clip, red()).unwrap();
    let before = host.commands.clone();
    host.push_built_fragment(
        built.dl_descriptor,
        built.dl_data,
        built.aux_descriptor,
        built.aux_data,
    )
    .unwrap();
    assert_eq!(host.commands.len(), before.len() + fragment_commands.len());
    assert_eq!(&host.commands[..before.len()], &before[..]);
    assert_eq!(&host.commands[before.len()..], &fragment_commands[..]);
}

#[test]
fn begin_resets_accumulated_state() {
    let mut b = SceneBuilder::new(SceneId::new(1, 1));
    b.begin(10, 10);
    let clip = b.new_clip_region(rect(0, 0, 10, 10), &Vec::new(), None).unwrap();
    b.push_rect(rect(0, 0, 5, 5), clip, red()).unwrap();
    assert_eq!(b.commands.len(), 1);
    b.begin(20, 20);
    assert!(b.commands.is_empty());
    assert!(b.aux.is_empty());
    assert_eq!(b.root_width, 20);
    assert_eq!(b.root_height, 20);
}

#[test]
fn empty_scene_round_trips() {
    let scene = SceneId::new(4, 4);
    let mut b = SceneBuilder::new(scene);
    b.begin(1, 1);
    assert!(b.end().is_ok());
    let built = b.finalize().unwrap();
    assert_eq!(built.dl_descriptor.cmd_count, 0);
    assert_eq!(built.dl_descriptor.group_count, 0);
    assert_eq!(built.dl_descriptor.leaf_count, 0);
    assert_eq!(built.dl_descriptor.byte_len, 0);
    assert_eq!(built.aux_descriptor.entry_count, 0);

    let mut b2 = SceneBuilder::new(scene);
    b2.begin(1, 1);
    b2.push_built_fragment(
        built.dl_descriptor,
        built.dl_data,
        built.aux_descriptor,
        built.aux_data,
    )
    .unwrap();
    assert!(b2.commands.is_empty());
    assert!(b2.aux.is_empty());
}

#[test]
fn finalize_consumes_the_open_scene() {
    let mut b = SceneBuilder::new(SceneId::new(4, 5));
    b.begin(1, 1);
    assert!(b.finalize().is_ok());
    // The scene was consumed exactly once; the builder is Empty again.
    assert!(matches!(b.finalize(), Err(SceneError::NotOpen)));
    // A new begin opens a fresh scene.
    b.begin(2, 2);
    assert!(b.finalize().is_ok());
}

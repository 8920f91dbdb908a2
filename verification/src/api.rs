//! The renderer-facing API state: resource tables, per-scene display
//! lists with their epochs, per-frame animated property values, and the
//! drain-once queue of completed-frame epochs.
//!
//! A caller adds image and font resources by key, hands finalized scene
//! descriptions over with a strictly increasing epoch per scene, and
//! generates frames; after a render pass the backend records which epoch
//! of each scene was rendered, and the caller drains the set of newly
//! rendered `(scene, epoch)` pairs exactly once.

use vstd::prelude::*;
use crate::ids::{SceneId, Epoch, ImageKey, FontKey, IdNamespace, ExternalImageId};
use crate::geometry::TransformMatrix;
use crate::display::{Command, AuxEntry, cmds_well_nested, cmds_ranges_ok, cmds_counts};
use crate::blob::ImageFormat;
use crate::buffer::ByteBufferHandle;
use crate::builder::{BuiltDisplayListDescriptor, AuxiliaryListsDescriptor, fragment_decodes};
use crate::codec::{decode_cmds_bytes, decode_aux_bytes};
use crate::table::{tbl_has, tbl_unique, tbl_map, lemma_tbl_dom, lemma_tbl_at,
    lemma_map_remove_insert, tbl_remove_at, tbl_push_new};

verus! {

/// Shape of an image resource held in the table.
#[derive(Clone, Copy, PartialEq, Eq, Structural, Debug)]
pub struct ImageDescriptor {
    pub format: ImageFormat,
    pub width: u32,
    pub height: u32,
    pub stride: Option<u32>,
    pub is_opaque: bool,
}

/// Decodes the fixed-size boundary form of a descriptor, where a stride
/// of zero stands for "no explicit stride"; the zero is never read back
/// as a stride.
pub fn image_descriptor_from_boundary(
    format: ImageFormat,
    width: u32,
    height: u32,
    stride: u32,
    is_opaque: bool,
) -> (r: ImageDescriptor)
    ensures
        r.format == format && r.width == width && r.height == height && r.is_opaque == is_opaque,
        stride == 0 ==> r.stride is None,
        stride != 0 ==> r.stride == Some(stride),
{
    ImageDescriptor {
        format,
        width,
        height,
        stride: if stride != 0 {
            Some(stride)
        } else {
            None
        },
        is_opaque,
    }
}

/// How an external image's storage is bound.
#[derive(Clone, Copy, PartialEq, Eq, Structural, Debug)]
pub enum ExternalImageKind {
    Texture2DHandle,
    ExternalBuffer,
}

/// The pixel source of an image resource: bytes the table owns, a blob
/// description rasterized on demand, or a caller-owned external resource.
#[derive(PartialEq, Eq, Debug)]
pub enum ImageData {
    Raster(Vec<u8>),
    Blob(Vec<u8>),
    External { id: ExternalImageId, kind: ExternalImageKind },
}

/// One image resource record.
#[derive(PartialEq, Eq, Debug)]
pub struct ImageResource {
    pub descriptor: ImageDescriptor,
    pub data: ImageData,
}

/// One scene's most recently accepted description.
#[derive(Debug)]
pub struct SceneRecord {
    pub epoch: Epoch,
    pub commands: Vec<Command>,
    pub aux: Vec<AuxEntry>,
}

/// Why an API call was rejected.
#[derive(Clone, Copy, PartialEq, Eq, Structural, Debug)]
pub enum ApiError {
    /// Updating or deleting an image key that is not in the table.
    UnknownImage,
    /// Deleting a font key that is not in the table.
    UnknownFont,
    /// A display list for a scene whose epoch is not strictly after the
    /// scene's previously accepted epoch.
    StaleEpoch,
    /// A display list payload that does not decode to what its
    /// descriptors promise.
    MalformedSceneDescription,
}

/// The backend state behind one API handle.
pub struct RenderBackend {
    namespace: IdNamespace,
    images: Vec<(ImageKey, ImageResource)>,
    fonts: Vec<(FontKey, Vec<u8>)>,
    scenes: Vec<(SceneId, SceneRecord)>,
    root_pipeline: Option<SceneId>,
    window_width: u32,
    window_height: u32,
    prop_transforms: Vec<(u64, TransformMatrix)>,
    prop_opacities: Vec<(u64, i32)>,
    frame_pending: bool,
    rendered: Vec<(SceneId, Epoch)>,
    reported: Vec<(SceneId, Epoch)>,
}

impl RenderBackend {
    pub closed spec fn wf(self) -> bool {
        &&& tbl_unique(self.images@)
        &&& tbl_unique(self.fonts@)
        &&& tbl_unique(self.scenes@)
        &&& tbl_unique(self.prop_transforms@)
        &&& tbl_unique(self.prop_opacities@)
        &&& tbl_unique(self.rendered@)
        &&& tbl_unique(self.reported@)
    }

    pub closed spec fn namespace_spec(self) -> IdNamespace {
        self.namespace
    }

    pub closed spec fn image_map(self) -> Map<ImageKey, ImageResource> {
        tbl_map(self.images@)
    }

    pub closed spec fn font_map(self) -> Map<FontKey, Seq<u8>> {
        tbl_map(self.fonts@).map_values(|v: Vec<u8>| v@)
    }

    pub closed spec fn scene_map(self) -> Map<SceneId, SceneRecord> {
        tbl_map(self.scenes@)
    }

    /// The epoch of the most recently accepted description of a scene.
    pub open spec fn scene_epoch(self, s: SceneId) -> Option<Epoch> {
        if self.scene_map().dom().contains(s) {
            Some(self.scene_map()[s].epoch)
        } else {
            None
        }
    }

    pub closed spec fn rendered_map(self) -> Map<SceneId, Epoch> {
        tbl_map(self.rendered@)
    }

    pub closed spec fn reported_map(self) -> Map<SceneId, Epoch> {
        tbl_map(self.reported@)
    }

    pub closed spec fn transform_prop_map(self) -> Map<u64, TransformMatrix> {
        tbl_map(self.prop_transforms@)
    }

    pub closed spec fn opacity_prop_map(self) -> Map<u64, i32> {
        tbl_map(self.prop_opacities@)
    }

    pub closed spec fn root_scene(self) -> Option<SceneId> {
        self.root_pipeline
    }

    pub closed spec fn window_size(self) -> (u32, u32) {
        (self.window_width, self.window_height)
    }

    pub closed spec fn frame_is_pending(self) -> bool {
        self.frame_pending
    }

    /// Everything but the image table.
    pub open spec fn same_but_images(self, o: RenderBackend) -> bool {
        &&& self.namespace_spec() == o.namespace_spec()
        &&& self.font_map() == o.font_map()
        &&& self.scene_map() == o.scene_map()
        &&& self.rendered_map() == o.rendered_map()
        &&& self.reported_map() == o.reported_map()
        &&& self.transform_prop_map() == o.transform_prop_map()
        &&& self.opacity_prop_map() == o.opacity_prop_map()
        &&& self.root_scene() == o.root_scene()
        &&& self.window_size() == o.window_size()
        &&& self.frame_is_pending() == o.frame_is_pending()
    }

    /// Everything but the font table.
    pub open spec fn same_but_fonts(self, o: RenderBackend) -> bool {
        &&& self.namespace_spec() == o.namespace_spec()
        &&& self.image_map() == o.image_map()
        &&& self.scene_map() == o.scene_map()
        &&& self.rendered_map() == o.rendered_map()
        &&& self.reported_map() == o.reported_map()
        &&& self.transform_prop_map() == o.transform_prop_map()
        &&& self.opacity_prop_map() == o.opacity_prop_map()
        &&& self.root_scene() == o.root_scene()
        &&& self.window_size() == o.window_size()
        &&& self.frame_is_pending() == o.frame_is_pending()
    }

    /// Everything but the scene table.
    pub open spec fn same_but_scenes(self, o: RenderBackend) -> bool {
        &&& self.namespace_spec() == o.namespace_spec()
        &&& self.image_map() == o.image_map()
        &&& self.font_map() == o.font_map()
        &&& self.rendered_map() == o.rendered_map()
        &&& self.reported_map() == o.reported_map()
        &&& self.transform_prop_map() == o.transform_prop_map()
        &&& self.opacity_prop_map() == o.opacity_prop_map()
        &&& self.root_scene() == o.root_scene()
        &&& self.window_size() == o.window_size()
        &&& self.frame_is_pending() == o.frame_is_pending()
    }

    /// Everything but the animated property tables and the pending flag.
    pub open spec fn same_but_props(self, o: RenderBackend) -> bool {
        &&& self.namespace_spec() == o.namespace_spec()
        &&& self.image_map() == o.image_map()
        &&& self.font_map() == o.font_map()
        &&& self.scene_map() == o.scene_map()
        &&& self.rendered_map() == o.rendered_map()
        &&& self.reported_map() == o.reported_map()
        &&& self.root_scene() == o.root_scene()
        &&& self.window_size() == o.window_size()
    }

    /// Everything but the rendered/reported epoch tables and the pending
    /// flag.
    pub open spec fn same_but_epochs(self, o: RenderBackend) -> bool {
        &&& self.namespace_spec() == o.namespace_spec()
        &&& self.image_map() == o.image_map()
        &&& self.font_map() == o.font_map()
        &&& self.scene_map() == o.scene_map()
        &&& self.transform_prop_map() == o.transform_prop_map()
        &&& self.opacity_prop_map() == o.opacity_prop_map()
        &&& self.root_scene() == o.root_scene()
        &&& self.window_size() == o.window_size()
    }

    /// A fresh backend allocating its keys from `namespace`.
    pub fn new(namespace: IdNamespace) -> (r: RenderBackend)
        ensures
            r.wf(),
            r.namespace_spec() == namespace,
            r.image_map() == Map::<ImageKey, ImageResource>::empty(),
            r.font_map() == Map::<FontKey, Seq<u8>>::empty(),
            r.scene_map() == Map::<SceneId, SceneRecord>::empty(),
            r.rendered_map() == Map::<SceneId, Epoch>::empty(),
            r.reported_map() == Map::<SceneId, Epoch>::empty(),
            r.transform_prop_map() == Map::<u64, TransformMatrix>::empty(),
            r.opacity_prop_map() == Map::<u64, i32>::empty(),
            r.root_scene() is None,
            !r.frame_is_pending(),
    {
        let r = RenderBackend {
            namespace,
            images: Vec::new(),
            fonts: Vec::new(),
            scenes: Vec::new(),
            root_pipeline: None,
            window_width: 0,
            window_height: 0,
            prop_transforms: Vec::new(),
            prop_opacities: Vec::new(),
            frame_pending: false,
            rendered: Vec::new(),
            reported: Vec::new(),
        };
        proof {
            assert(tbl_map(r.fonts@).map_values(|v: Vec<u8>| v@) =~= Map::<
                FontKey,
                Seq<u8>,
            >::empty());
        }
        r
    }

    /// The namespace this handle allocates keys from.
    pub fn get_namespace(&self) -> (r: IdNamespace)
        ensures
            r == self.namespace_spec(),
    {
        self.namespace
    }

    fn find_image(&self, key: ImageKey) -> (r: Option<usize>)
        ensures
            r matches Some(i) ==> i < self.images@.len() && self.images@[i as int].0 == key,
            r is None ==> !tbl_has(self.images@, key),
    {
        let mut i: usize = 0;
        while i < self.images.len()
            invariant
                i <= self.images@.len(),
                forall|j: int| 0 <= j < i ==> #[trigger] self.images@[j].0 != key,
            decreases self.images@.len() - i,
        {
            if self.images[i].0 == key {
                return Some(i);
            }
            i = i + 1;
        }
        None
    }

    fn find_font(&self, key: FontKey) -> (r: Option<usize>)
        ensures
            r matches Some(i) ==> i < self.fonts@.len() && self.fonts@[i as int].0 == key,
            r is None ==> !tbl_has(self.fonts@, key),
    {
        let mut i: usize = 0;
        while i < self.fonts.len()
            invariant
                i <= self.fonts@.len(),
                forall|j: int| 0 <= j < i ==> #[trigger] self.fonts@[j].0 != key,
            decreases self.fonts@.len() - i,
        {
            if self.fonts[i].0 == key {
                return Some(i);
            }
            i = i + 1;
        }
        None
    }

    /// Stores one image resource under `key`, replacing any earlier
    /// record for the key. The table owns its own copy of the bytes.
    fn store_image(&mut self, key: ImageKey, resource: ImageResource)
        requires
            old(self).wf(),
        ensures
            final(self).wf(),
            final(self).image_map() == old(self).image_map().insert(key, resource),
            final(self).same_but_images(*old(self)),
    {
        proof {
            lemma_tbl_dom(self.images@, key);
        }
        match self.find_image(key) {
            Some(i) => {
                let ghost pre = tbl_map(self.images@);
                let removed = tbl_remove_at(&mut self.images, i);
                proof {
                    lemma_map_remove_insert(pre, key, resource);
                    lemma_tbl_dom(self.images@, key);
                }
                tbl_push_new(&mut self.images, key, resource);
            },
            None => {
                tbl_push_new(&mut self.images, key, resource);
            },
        }
    }

    /// Adds an image resource whose pixel bytes the table owns.
    pub fn add_image(&mut self, key: ImageKey, descriptor: ImageDescriptor, bytes: Vec<u8>)
        requires
            old(self).wf(),
        ensures
            final(self).wf(),
            final(self).image_map() == old(self).image_map().insert(
                key,
                ImageResource { descriptor, data: ImageData::Raster(bytes) },
            ),
            final(self).same_but_images(*old(self)),
    {
        self.store_image(key, ImageResource { descriptor, data: ImageData::Raster(bytes) });
    }

    /// Adds a blob image: the bytes are the vector description, to be
    /// rasterized on demand by the blob pipeline.
    pub fn add_blob_image(&mut self, key: ImageKey, descriptor: ImageDescriptor, bytes: Vec<u8>)
        requires
            old(self).wf(),
        ensures
            final(self).wf(),
            final(self).image_map() == old(self).image_map().insert(
                key,
                ImageResource { descriptor, data: ImageData::Blob(bytes) },
            ),
            final(self).same_but_images(*old(self)),
    {
        self.store_image(key, ImageResource { descriptor, data: ImageData::Blob(bytes) });
    }

    /// Adds an external image backed by a caller-owned GPU texture.
    pub fn add_external_image_handle(
        &mut self,
        key: ImageKey,
        descriptor: ImageDescriptor,
        external_id: ExternalImageId,
    )
        requires
            old(self).wf(),
        ensures
            final(self).wf(),
            final(self).image_map() == old(self).image_map().insert(
                key,
                ImageResource {
                    descriptor,
                    data: ImageData::External {
                        id: external_id,
                        kind: ExternalImageKind::Texture2DHandle,
                    },
                },
            ),
            final(self).same_but_images(*old(self)),
    {
        self.store_image(
            key,
            ImageResource {
                descriptor,
                data: ImageData::External {
                    id: external_id,
                    kind: ExternalImageKind::Texture2DHandle,
                },
            },
        );
    }

    /// Adds an external image backed by a caller-owned byte buffer.
    pub fn add_external_image_buffer(
        &mut self,
        key: ImageKey,
        descriptor: ImageDescriptor,
        external_id: ExternalImageId,
    )
        requires
            old(self).wf(),
        ensures
            final(self).wf(),
            final(self).image_map() == old(self).image_map().insert(
                key,
                ImageResource {
                    descriptor,
                    data: ImageData::External {
                        id: external_id,
                        kind: ExternalImageKind::ExternalBuffer,
                    },
                },
            ),
            final(self).same_but_images(*old(self)),
    {
        self.store_image(
            key,
            ImageResource {
                descriptor,
                data: ImageData::External {
                    id: external_id,
                    kind: ExternalImageKind::ExternalBuffer,
                },
            },
        );
    }

    /// Replaces the record of an existing image key; an unknown key is a
    /// recoverable error.
    pub fn update_image(
        &mut self,
        key: ImageKey,
        descriptor: ImageDescriptor,
        bytes: Vec<u8>,
    ) -> (r: Result<(), ApiError>)
        requires
            old(self).wf(),
        ensures
            final(self).wf(),
            !old(self).image_map().dom().contains(key) ==> r == Err::<(), ApiError>(
                ApiError::UnknownImage,
            ) && *final(self) == *old(self),
            old(self).image_map().dom().contains(key) ==> r is Ok && final(self).image_map()
                == old(self).image_map().insert(
                key,
                ImageResource { descriptor, data: ImageData::Raster(bytes) },
            ) && final(self).same_but_images(*old(self)),
    {
        proof {
            lemma_tbl_dom(self.images@, key);
        }
        match self.find_image(key) {
            None => Err(ApiError::UnknownImage),
            Some(i) => {
                proof {
                    lemma_tbl_at(self.images@, i as int);
                }
                let ghost pre = tbl_map(self.images@);
                let resource = ImageResource { descriptor, data: ImageData::Raster(bytes) };
                let removed = tbl_remove_at(&mut self.images, i);
                proof {
                    lemma_map_remove_insert(pre, key, resource);
                    lemma_tbl_dom(self.images@, key);
                }
                tbl_push_new(&mut self.images, key, resource);
                Ok(())
            },
        }
    }

    /// Deletes an image resource; an unknown key is a recoverable error.
    pub fn delete_image(&mut self, key: ImageKey) -> (r: Result<(), ApiError>)
        requires
            old(self).wf(),
        ensures
            final(self).wf(),
            !old(self).image_map().dom().contains(key) ==> r == Err::<(), ApiError>(
                ApiError::UnknownImage,
            ) && *final(self) == *old(self),
            old(self).image_map().dom().contains(key) ==> r is Ok && final(self).image_map()
                == old(self).image_map().remove(key) && final(self).same_but_images(*old(self)),
    {
        proof {
            lemma_tbl_dom(self.images@, key);
        }
        match self.find_image(key) {
            None => Err(ApiError::UnknownImage),
            Some(i) => {
                let removed = tbl_remove_at(&mut self.images, i);
                Ok(())
            },
        }
    }

    /// Adds a raw font under `key`, replacing any earlier record. The
    /// table owns its own copy of the bytes.
    pub fn add_raw_font(&mut self, key: FontKey, bytes: Vec<u8>)
        requires
            old(self).wf(),
        ensures
            final(self).wf(),
            final(self).font_map() == old(self).font_map().insert(key, bytes@),
            final(self).same_but_fonts(*old(self)),
    {
        proof {
            lemma_tbl_dom(self.fonts@, key);
        }
        let ghost newview = bytes@;
        match self.find_font(key) {
            Some(i) => {
                let ghost pre = tbl_map(self.fonts@);
                let removed = tbl_remove_at(&mut self.fonts, i);
                proof {
                    lemma_map_remove_insert(pre, key, bytes);
                    lemma_tbl_dom(self.fonts@, key);
                }
                tbl_push_new(&mut self.fonts, key, bytes);
                proof {
                    assert(tbl_map(self.fonts@).map_values(|v: Vec<u8>| v@) =~= tbl_map(
                        old(self).fonts@,
                    ).map_values(|v: Vec<u8>| v@).insert(key, newview));
                }
            },
            None => {
                tbl_push_new(&mut self.fonts, key, bytes);
                proof {
                    assert(tbl_map(self.fonts@).map_values(|v: Vec<u8>| v@) =~= tbl_map(
                        old(self).fonts@,
                    ).map_values(|v: Vec<u8>| v@).insert(key, newview));
                }
            },
        }
    }

    /// Deletes a font; an unknown key is a recoverable error.
    pub fn delete_font(&mut self, key: FontKey) -> (r: Result<(), ApiError>)
        requires
            old(self).wf(),
        ensures
            final(self).wf(),
            !old(self).font_map().dom().contains(key) ==> r == Err::<(), ApiError>(
                ApiError::UnknownFont,
            ) && *final(self) == *old(self),
            old(self).font_map().dom().contains(key) ==> r is Ok && final(self).font_map() == old(self).font_map().remove(key) && final(self).same_but_fonts(*old(self)),
    {
        proof {
            lemma_tbl_dom(self.fonts@, key);
            assert(tbl_map(self.fonts@).dom() =~= self.font_map().dom());
        }
        match self.find_font(key) {
            None => Err(ApiError::UnknownFont),
            Some(i) => {
                let removed = tbl_remove_at(&mut self.fonts, i);
                proof {
                    assert(tbl_map(self.fonts@).map_values(|v: Vec<u8>| v@) =~= tbl_map(
                        old(self).fonts@,
                    ).map_values(|v: Vec<u8>| v@).remove(key));
                }
                Ok(())
            },
        }
    }

    /// Makes `pipeline` the root scene of the next frame and asks for a
    /// frame.
    pub fn set_root_pipeline(&mut self, pipeline: SceneId)
        requires
            old(self).wf(),
        ensures
            final(self).wf(),
            final(self).root_scene() == Some(pipeline),
            final(self).frame_is_pending(),
            final(self).image_map() == old(self).image_map(),
            final(self).font_map() == old(self).font_map(),
            final(self).scene_map() == old(self).scene_map(),
            final(self).rendered_map() == old(self).rendered_map(),
            final(self).reported_map() == old(self).reported_map(),
            final(self).transform_prop_map() == old(self).transform_prop_map(),
            final(self).opacity_prop_map() == old(self).opacity_prop_map(),
            final(self).window_size() == old(self).window_size(),
            final(self).namespace_spec() == old(self).namespace_spec(),
    {
        self.root_pipeline = Some(pipeline);
        self.frame_pending = true;
    }

    /// Records the window size frames are generated for.
    pub fn set_window_parameters(&mut self, width: u32, height: u32)
        requires
            old(self).wf(),
        ensures
            final(self).wf(),
            final(self).window_size() == (width, height),
            final(self).image_map() == old(self).image_map(),
            final(self).font_map() == old(self).font_map(),
            final(self).scene_map() == old(self).scene_map(),
            final(self).rendered_map() == old(self).rendered_map(),
            final(self).reported_map() == old(self).reported_map(),
            final(self).transform_prop_map() == old(self).transform_prop_map(),
            final(self).opacity_prop_map() == old(self).opacity_prop_map(),
            final(self).root_scene() == old(self).root_scene(),
            final(self).frame_is_pending() == old(self).frame_is_pending(),
            final(self).namespace_spec() == old(self).namespace_spec(),
    {
        self.window_width = width;
        self.window_height = height;
    }
}

} // verus!

verus! {

/// Whether `e` may follow `prior` as a scene's next accepted epoch: any
/// epoch is accepted for a scene never seen, and otherwise only a
/// strictly greater one.
pub open spec fn epoch_accepted(prior: Option<Epoch>, e: Epoch) -> bool {
    match prior {
        None => true,
        Some(p) => e.value > p.value,
    }
}

/// Epoch monotonicity: every accepted epoch is strictly after the one it
/// replaces, so across any chain of accepted descriptions of one scene
/// the epochs strictly increase.
pub proof fn lemma_epoch_monotonic(e1: Epoch, e2: Epoch, e3: Epoch)
    requires
        epoch_accepted(Some(e1), e2),
        epoch_accepted(Some(e2), e3),
    ensures
        e2.value > e1.value,
        e3.value > e2.value,
        e3.value > e1.value,
{
}

/// Whether a rendered `(scene, epoch)` pair differs from what was
/// previously reported for the scene.
pub open spec fn epoch_is_new(reported: Map<SceneId, Epoch>, p: (SceneId, Epoch)) -> bool {
    !(reported.dom().contains(p.0) && reported[p.0] == p.1)
}

/// The rendered pairs whose epoch differs from what was previously
/// reported, in table order.
pub open spec fn changed_epochs(
    rendered: Seq<(SceneId, Epoch)>,
    reported: Map<SceneId, Epoch>,
) -> Seq<(SceneId, Epoch)>
    decreases rendered.len(),
{
    if rendered.len() == 0 {
        Seq::empty()
    } else {
        let rest = changed_epochs(rendered.drop_last(), reported);
        if epoch_is_new(reported, rendered.last()) {
            rest.push(rendered.last())
        } else {
            rest
        }
    }
}

/// A per-frame animated property table merged into the persisted state:
/// entries are inserted by id, and ids with no per-frame value keep their
/// persisted value.
pub open spec fn merged_props<V>(m: Map<u64, V>, entries: Seq<(u64, V)>) -> Map<u64, V>
    decreases entries.len(),
{
    if entries.len() == 0 {
        m
    } else {
        merged_props(m, entries.drop_last()).insert(entries.last().0, entries.last().1)
    }
}

proof fn lemma_tbl_unique_drop_last<K, V>(s: Seq<(K, V)>)
    requires
        tbl_unique(s),
        s.len() > 0,
    ensures
        tbl_unique(s.drop_last()),
        !tbl_has(s.drop_last(), s.last().0),
{
    assert forall|a: int, b: int| 0 <= a < b < s.drop_last().len() implies
        #[trigger] s.drop_last()[a].0 != #[trigger] s.drop_last()[b].0 by {
        assert(s[a].0 != s[b].0);
    }
    if tbl_has(s.drop_last(), s.last().0) {
        let j = choose|j: int| 0 <= j < s.drop_last().len() && s.drop_last()[j].0 == s.last().0;
        assert(s[j].0 == s[s.len() - 1].0);
    }
}

proof fn lemma_changed_epochs(rendered: Seq<(SceneId, Epoch)>, reported: Map<SceneId, Epoch>)
    requires
        tbl_unique(rendered),
    ensures
        tbl_unique(changed_epochs(rendered, reported)),
        forall|s: SceneId|
            #[trigger] tbl_map(changed_epochs(rendered, reported)).dom().contains(s) <==> (tbl_map(
                rendered,
            ).dom().contains(s) && epoch_is_new(reported, (s, tbl_map(rendered)[s]))),
        forall|s: SceneId|
            #[trigger] tbl_map(changed_epochs(rendered, reported)).dom().contains(s) ==> tbl_map(
                changed_epochs(rendered, reported),
            )[s] == tbl_map(rendered)[s],
    decreases rendered.len(),
{
    if rendered.len() == 0 {
    } else {
        let last = rendered.last();
        let rest = rendered.drop_last();
        lemma_tbl_unique_drop_last(rendered);
        lemma_changed_epochs(rest, reported);
        lemma_tbl_dom(rest, last.0);
        let ch_rest = changed_epochs(rest, reported);
        assert(!tbl_map(rest).dom().contains(last.0));
        assert(!tbl_map(ch_rest).dom().contains(last.0));
        lemma_tbl_dom(ch_rest, last.0);
        if epoch_is_new(reported, last) {
            let ch = ch_rest.push(last);
            crate::table::lemma_tbl_push(ch_rest, last.0, last.1);
            assert(tbl_map(rendered) == tbl_map(rest).insert(last.0, last.1));
            assert forall|s: SceneId| #[trigger] tbl_map(ch).dom().contains(s) <==> (tbl_map(
                rendered,
            ).dom().contains(s) && epoch_is_new(reported, (s, tbl_map(rendered)[s]))) by {
                if s == last.0 {
                    assert(tbl_map(rendered)[s] == last.1);
                } else {
                    assert(tbl_map(ch).dom().contains(s) == tbl_map(ch_rest).dom().contains(s));
                    assert(tbl_map(rendered).dom().contains(s) == tbl_map(rest).dom().contains(
                        s,
                    ));
                    if tbl_map(rest).dom().contains(s) {
                        assert(tbl_map(rendered)[s] == tbl_map(rest)[s]);
                    }
                }
            }
        } else {
            assert(changed_epochs(rendered, reported) == ch_rest);
            assert(tbl_map(rendered) == tbl_map(rest).insert(last.0, last.1));
            assert forall|s: SceneId| #[trigger] tbl_map(ch_rest).dom().contains(s) <==> (
            tbl_map(rendered).dom().contains(s) && epoch_is_new(
                reported,
                (s, tbl_map(rendered)[s]),
            )) by {
                if s == last.0 {
                    assert(tbl_map(rendered)[s] == last.1);
                    assert(!epoch_is_new(reported, (s, last.1)));
                } else {
                    assert(tbl_map(rendered).dom().contains(s) == tbl_map(rest).dom().contains(
                        s,
                    ));
                    if tbl_map(rest).dom().contains(s) {
                        assert(tbl_map(rendered)[s] == tbl_map(rest)[s]);
                    }
                }
            }
            assert forall|s: SceneId| #[trigger] tbl_map(ch_rest).dom().contains(s) implies
                tbl_map(ch_rest)[s] == tbl_map(rendered)[s] by {
                assert(s != last.0);
                assert(tbl_map(rendered)[s] == tbl_map(rest)[s]);
            }
        }
    }
}

/// The per-scene epochs a render pass records: one pair for each scene
/// with a stored description, carrying that scene's current epoch.
proof fn lemma_epoch_projection(
    scenes: Seq<(SceneId, SceneRecord)>,
    rend: Seq<(SceneId, Epoch)>,
)
    requires
        tbl_unique(scenes),
        rend.len() == scenes.len(),
        forall|j: int|
            0 <= j < scenes.len() ==> #[trigger] rend[j].0 == scenes[j].0 && rend[j].1
                == scenes[j].1.epoch,
    ensures
        tbl_unique(rend),
        forall|s: SceneId|
            #[trigger] tbl_map(rend).dom().contains(s) == tbl_map(scenes).dom().contains(s),
        forall|s: SceneId|
            #[trigger] tbl_map(scenes).dom().contains(s) ==> tbl_map(rend)[s] == tbl_map(
                scenes,
            )[s].epoch,
    decreases scenes.len(),
{
    assert forall|a: int, b: int| 0 <= a < b < rend.len() implies #[trigger] rend[a].0
        != #[trigger] rend[b].0 by {
        assert(scenes[a].0 != scenes[b].0);
    }
    if scenes.len() > 0 {
        lemma_tbl_unique_drop_last(scenes);
        assert forall|j: int| 0 <= j < scenes.drop_last().len() implies
            #[trigger] rend.drop_last()[j].0 == scenes.drop_last()[j].0
                && rend.drop_last()[j].1 == scenes.drop_last()[j].1.epoch by {
            assert(rend[j].0 == scenes[j].0 && rend[j].1 == scenes[j].1.epoch);
        }
        lemma_epoch_projection(scenes.drop_last(), rend.drop_last());
        assert(rend.last().0 == scenes[scenes.len() - 1].0);
        assert(rend.last().1 == scenes[scenes.len() - 1].1.epoch);
        assert(tbl_map(scenes) == tbl_map(scenes.drop_last()).insert(
            scenes.last().0,
            scenes.last().1,
        ));
        assert(tbl_map(rend) == tbl_map(rend.drop_last()).insert(rend.last().0, rend.last().1));
        assert forall|s: SceneId| #[trigger] tbl_map(rend).dom().contains(s) == tbl_map(
            scenes,
        ).dom().contains(s) by {
            if s != scenes.last().0 {
                assert(tbl_map(rend).dom().contains(s) == tbl_map(rend.drop_last()).dom().contains(
                    s,
                ));
            }
        }
        assert forall|s: SceneId| #[trigger] tbl_map(scenes).dom().contains(s) implies tbl_map(
            rend,
        )[s] == tbl_map(scenes)[s].epoch by {
            if s != scenes.last().0 {
                assert(tbl_map(scenes)[s] == tbl_map(scenes.drop_last())[s]);
                assert(tbl_map(rend)[s] == tbl_map(rend.drop_last())[s]);
            }
        }
    }
}

fn find_scene_key<V>(v: &Vec<(SceneId, V)>, key: SceneId) -> (r: Option<usize>)
    ensures
        r matches Some(i) ==> i < v@.len() && v@[i as int].0 == key,
        r is None ==> !tbl_has(v@, key),
{
    let mut i: usize = 0;
    while i < v.len()
        invariant
            i <= v@.len(),
            forall|j: int| 0 <= j < i ==> #[trigger] v@[j].0 != key,
        decreases v@.len() - i,
    {
        if v[i].0 == key {
            return Some(i);
        }
        i = i + 1;
    }
    None
}

fn find_u64_key<V>(v: &Vec<(u64, V)>, key: u64) -> (r: Option<usize>)
    ensures
        r matches Some(i) ==> i < v@.len() && v@[i as int].0 == key,
        r is None ==> !tbl_has(v@, key),
{
    let mut i: usize = 0;
    while i < v.len()
        invariant
            i <= v@.len(),
            forall|j: int| 0 <= j < i ==> #[trigger] v@[j].0 != key,
        decreases v@.len() - i,
    {
        if v[i].0 == key {
            return Some(i);
        }
        i = i + 1;
    }
    None
}

/// The drain-once queue of `(scene, epoch)` pairs produced by a flush:
/// each take removes and returns one pair until the queue is empty, in
/// unspecified order; the set must be processed whole before the next
/// render.
pub struct RenderedEpochs {
    data: Vec<(SceneId, Epoch)>,
}

impl View for RenderedEpochs {
    type V = Seq<(SceneId, Epoch)>;

    closed spec fn view(&self) -> Seq<(SceneId, Epoch)> {
        self.data@
    }
}

impl RenderedEpochs {
    /// Removes and returns one remaining pair; reports none-remaining
    /// once drained, rather than erroring.
    pub fn next(&mut self) -> (r: Option<(SceneId, Epoch)>)
        ensures
            old(self)@.len() == 0 ==> r is None && final(self)@ == old(self)@,
            old(self)@.len() > 0 ==> r == Some(old(self)@.last()) && final(self)@ == old(self)@.drop_last(),
    {
        self.data.pop()
    }

    /// How many pairs remain to drain.
    pub fn remaining(&self) -> (n: usize)
        ensures
            n == self@.len(),
    {
        self.data.len()
    }
}

} // verus!

verus! {

impl RenderBackend {
    /// Accepts a finalized scene description for `pipeline` at `epoch`,
    /// consuming the two payload buffers. The payloads must decode to
    /// what their descriptors promise, and the epoch must be strictly
    /// after the scene's previously accepted epoch; stale or malformed
    /// descriptions are rejected with the state unchanged.
    pub fn set_root_display_list(
        &mut self,
        epoch: Epoch,
        pipeline: SceneId,
        dl_descriptor: BuiltDisplayListDescriptor,
        dl_data: ByteBufferHandle,
        aux_descriptor: AuxiliaryListsDescriptor,
        aux_data: ByteBufferHandle,
    ) -> (r: Result<(), ApiError>)
        requires
            old(self).wf(),
        ensures
            final(self).wf(),
            fragment_decodes(dl_descriptor, dl_data@, aux_descriptor, aux_data@) is None ==> r
                == Err::<(), ApiError>(ApiError::MalformedSceneDescription) && *final(self)
                == *old(self),
            fragment_decodes(dl_descriptor, dl_data@, aux_descriptor, aux_data@) is Some
                && !epoch_accepted(old(self).scene_epoch(pipeline), epoch) ==> r == Err::<
                (),
                ApiError,
            >(ApiError::StaleEpoch) && *final(self) == *old(self),
            fragment_decodes(dl_descriptor, dl_data@, aux_descriptor, aux_data@) matches Some(
                (cs, es),
            ) ==> (epoch_accepted(old(self).scene_epoch(pipeline), epoch) ==> r is Ok && final(self).scene_map().dom().contains(pipeline) && final(self).scene_map()[pipeline].epoch
                == epoch && final(self).scene_map()[pipeline].commands@ == cs && final(self).scene_map()[pipeline].aux@ == es && final(self).scene_map().remove(pipeline) == old(self).scene_map().remove(pipeline) && final(self).same_but_scenes(*old(self))),
    {
        let dl_bytes = dl_data.into_buffer();
        let aux_bytes = aux_data.into_buffer();
        if dl_descriptor.byte_len != dl_bytes.len() || aux_descriptor.byte_len
            != aux_bytes.len() {
            return Err(ApiError::MalformedSceneDescription);
        }
        let cmds = match decode_cmds_bytes(&dl_bytes, dl_descriptor.cmd_count) {
            Some(v) => v,
            None => {
                return Err(ApiError::MalformedSceneDescription);
            },
        };
        let entries = match decode_aux_bytes(&aux_bytes, aux_descriptor.entry_count) {
            Some(v) => v,
            None => {
                return Err(ApiError::MalformedSceneDescription);
            },
        };
        if !cmds_well_nested(&cmds) {
            return Err(ApiError::MalformedSceneDescription);
        }
        if !cmds_ranges_ok(&cmds, entries.len()) {
            return Err(ApiError::MalformedSceneDescription);
        }
        let (groups, leaves) = cmds_counts(&cmds);
        if groups != dl_descriptor.group_count || leaves != dl_descriptor.leaf_count {
            return Err(ApiError::MalformedSceneDescription);
        }
        let record = SceneRecord { epoch, commands: cmds, aux: entries };
        proof {
            lemma_tbl_dom(self.scenes@, pipeline);
        }
        match find_scene_key(&self.scenes, pipeline) {
            Some(i) => {
                proof {
                    lemma_tbl_at(self.scenes@, i as int);
                }
                let stale = {
                    let prior = &self.scenes[i].1;
                    epoch.value <= prior.epoch.value
                };
                if stale {
                    return Err(ApiError::StaleEpoch);
                }
                let ghost pre = tbl_map(self.scenes@);
                let removed = tbl_remove_at(&mut self.scenes, i);
                proof {
                    lemma_map_remove_insert(pre, pipeline, record);
                    lemma_tbl_dom(self.scenes@, pipeline);
                }
                tbl_push_new(&mut self.scenes, pipeline, record);
                proof {
                    assert(tbl_map(self.scenes@).remove(pipeline) =~= pre.remove(pipeline));
                }
                Ok(())
            },
            None => {
                tbl_push_new(&mut self.scenes, pipeline, record);
                proof {
                    assert(tbl_map(self.scenes@).remove(pipeline) =~= tbl_map(
                        old(self).scenes@,
                    ).remove(pipeline));
                }
                Ok(())
            },
        }
    }

    /// Replaces the description of `pipeline` with an empty scene at
    /// `epoch`; the same staleness rule applies.
    pub fn clear_root_display_list(&mut self, epoch: Epoch, pipeline: SceneId) -> (r: Result<
        (),
        ApiError,
    >)
        requires
            old(self).wf(),
        ensures
            final(self).wf(),
            !epoch_accepted(old(self).scene_epoch(pipeline), epoch) ==> r == Err::<(), ApiError>(
                ApiError::StaleEpoch,
            ) && *final(self) == *old(self),
            epoch_accepted(old(self).scene_epoch(pipeline), epoch) ==> r is Ok && final(self).scene_map().dom().contains(pipeline) && final(self).scene_map()[pipeline].epoch
                == epoch && final(self).scene_map()[pipeline].commands@ == Seq::<Command>::empty()
                && final(self).scene_map()[pipeline].aux@ == Seq::<AuxEntry>::empty() && final(self).scene_map().remove(pipeline) == old(self).scene_map().remove(pipeline) && final(self).same_but_scenes(*old(self)),
    {
        let record = SceneRecord { epoch, commands: Vec::new(), aux: Vec::new() };
        proof {
            lemma_tbl_dom(self.scenes@, pipeline);
        }
        match find_scene_key(&self.scenes, pipeline) {
            Some(i) => {
                proof {
                    lemma_tbl_at(self.scenes@, i as int);
                }
                let stale = {
                    let prior = &self.scenes[i].1;
                    epoch.value <= prior.epoch.value
                };
                if stale {
                    return Err(ApiError::StaleEpoch);
                }
                let ghost pre = tbl_map(self.scenes@);
                let removed = tbl_remove_at(&mut self.scenes, i);
                proof {
                    lemma_map_remove_insert(pre, pipeline, record);
                    lemma_tbl_dom(self.scenes@, pipeline);
                }
                tbl_push_new(&mut self.scenes, pipeline, record);
                proof {
                    assert(tbl_map(self.scenes@).remove(pipeline) =~= pre.remove(pipeline));
                }
                Ok(())
            },
            None => {
                tbl_push_new(&mut self.scenes, pipeline, record);
                proof {
                    assert(tbl_map(self.scenes@).remove(pipeline) =~= tbl_map(
                        old(self).scenes@,
                    ).remove(pipeline));
                }
                Ok(())
            },
        }
    }

    /// Asks for a frame with the persisted animated property state.
    pub fn generate_frame(&mut self)
        requires
            old(self).wf(),
        ensures
            final(self).wf(),
            final(self).frame_is_pending(),
            final(self).transform_prop_map() == old(self).transform_prop_map(),
            final(self).opacity_prop_map() == old(self).opacity_prop_map(),
            final(self).same_but_props(*old(self)),
    {
        self.frame_pending = true;
    }

    /// Asks for a frame, first merging per-frame animated property
    /// values into the persisted state: each supplied entry replaces the
    /// persisted value of its binding id, and ids with no supplied value
    /// keep their persisted state.
    pub fn generate_frame_with_properties(
        &mut self,
        transforms: &Vec<(u64, TransformMatrix)>,
        opacities: &Vec<(u64, i32)>,
    )
        requires
            old(self).wf(),
        ensures
            final(self).wf(),
            final(self).frame_is_pending(),
            final(self).transform_prop_map() == merged_props(
                old(self).transform_prop_map(),
                transforms@,
            ),
            final(self).opacity_prop_map() == merged_props(
                old(self).opacity_prop_map(),
                opacities@,
            ),
            final(self).same_but_props(*old(self)),
    {
        let mut i: usize = 0;
        while i < transforms.len()
            invariant
                i <= transforms@.len(),
                tbl_unique(self.prop_transforms@),
                tbl_map(self.prop_transforms@) == merged_props(
                    tbl_map(old(self).prop_transforms@),
                    transforms@.subrange(0, i as int),
                ),
                self.images == old(self).images,
                self.fonts == old(self).fonts,
                self.scenes == old(self).scenes,
                self.prop_opacities == old(self).prop_opacities,
                self.rendered == old(self).rendered,
                self.reported == old(self).reported,
                self.root_pipeline == old(self).root_pipeline,
                self.window_width == old(self).window_width,
                self.window_height == old(self).window_height,
                self.namespace == old(self).namespace,
                old(self).wf(),
            decreases transforms@.len() - i,
        {
            let (id, value) = transforms[i];
            proof {
                lemma_tbl_dom(self.prop_transforms@, id);
            }
            match find_u64_key(&self.prop_transforms, id) {
                Some(j) => {
                    let ghost pre = tbl_map(self.prop_transforms@);
                    let removed = tbl_remove_at(&mut self.prop_transforms, j);
                    proof {
                        lemma_map_remove_insert(pre, id, value);
                        lemma_tbl_dom(self.prop_transforms@, id);
                    }
                    tbl_push_new(&mut self.prop_transforms, id, value);
                },
                None => {
                    tbl_push_new(&mut self.prop_transforms, id, value);
                },
            }
            proof {
                let sub1 = transforms@.subrange(0, i as int + 1);
                assert(sub1.drop_last() =~= transforms@.subrange(0, i as int));
                assert(sub1.last() == transforms@[i as int]);
            }
            i = i + 1;
        }
        proof {
            assert(transforms@.subrange(0, transforms@.len() as int) =~= transforms@);
        }
        let mut k: usize = 0;
        while k < opacities.len()
            invariant
                k <= opacities@.len(),
                tbl_unique(self.prop_opacities@),
                tbl_map(self.prop_opacities@) == merged_props(
                    tbl_map(old(self).prop_opacities@),
                    opacities@.subrange(0, k as int),
                ),
                tbl_map(self.prop_transforms@) == merged_props(
                    tbl_map(old(self).prop_transforms@),
                    transforms@,
                ),
                tbl_unique(self.prop_transforms@),
                self.images == old(self).images,
                self.fonts == old(self).fonts,
                self.scenes == old(self).scenes,
                self.rendered == old(self).rendered,
                self.reported == old(self).reported,
                self.root_pipeline == old(self).root_pipeline,
                self.window_width == old(self).window_width,
                self.window_height == old(self).window_height,
                self.namespace == old(self).namespace,
                old(self).wf(),
            decreases opacities@.len() - k,
        {
            let (id, value) = opacities[k];
            proof {
                lemma_tbl_dom(self.prop_opacities@, id);
            }
            match find_u64_key(&self.prop_opacities, id) {
                Some(j) => {
                    let ghost pre = tbl_map(self.prop_opacities@);
                    let removed = tbl_remove_at(&mut self.prop_opacities, j);
                    proof {
                        lemma_map_remove_insert(pre, id, value);
                        lemma_tbl_dom(self.prop_opacities@, id);
                    }
                    tbl_push_new(&mut self.prop_opacities, id, value);
                },
                None => {
                    tbl_push_new(&mut self.prop_opacities, id, value);
                },
            }
            proof {
                let sub1 = opacities@.subrange(0, k as int + 1);
                assert(sub1.drop_last() =~= opacities@.subrange(0, k as int));
                assert(sub1.last() == opacities@[k as int]);
            }
            k = k + 1;
        }
        proof {
            assert(opacities@.subrange(0, opacities@.len() as int) =~= opacities@);
        }
        self.frame_pending = true;
    }

    /// Runs a render pass: every scene with a stored description is
    /// rendered at its current epoch, and the pending-frame flag is
    /// cleared. Which epochs are newly rendered is reported by the next
    /// flush.
    pub fn render(&mut self)
        requires
            old(self).wf(),
        ensures
            final(self).wf(),
            forall|s: SceneId|
                #[trigger] final(self).rendered_map().dom().contains(s) == old(self).scene_map().dom().contains(s),
            forall|s: SceneId|
                #[trigger] old(self).scene_map().dom().contains(s) ==> final(self).rendered_map()[s] == old(self).scene_map()[s].epoch,
            final(self).reported_map() == old(self).reported_map(),
            !final(self).frame_is_pending(),
            final(self).same_but_epochs(*old(self)),
    {
        let mut rend: Vec<(SceneId, Epoch)> = Vec::new();
        let mut i: usize = 0;
        while i < self.scenes.len()
            invariant
                i <= self.scenes@.len(),
                rend@.len() == i,
                forall|j: int|
                    0 <= j < i ==> #[trigger] rend@[j].0 == self.scenes@[j].0 && rend@[j].1
                        == self.scenes@[j].1.epoch,
            decreases self.scenes@.len() - i,
        {
            let s = self.scenes[i].0;
            let e = self.scenes[i].1.epoch;
            rend.push((s, e));
            i = i + 1;
        }
        proof {
            lemma_epoch_projection(self.scenes@, rend@);
        }
        self.rendered = rend;
        self.frame_pending = false;
    }

    /// The most recently rendered epoch of a scene, or nothing when the
    /// scene was never rendered.
    pub fn current_epoch(&self, pipeline: SceneId) -> (r: Option<Epoch>)
        requires
            self.wf(),
        ensures
            self.rendered_map().dom().contains(pipeline) ==> r == Some(
                self.rendered_map()[pipeline],
            ),
            !self.rendered_map().dom().contains(pipeline) ==> r is None,
    {
        proof {
            lemma_tbl_dom(self.rendered@, pipeline);
        }
        match find_scene_key(&self.rendered, pipeline) {
            Some(i) => {
                proof {
                    lemma_tbl_at(self.rendered@, i as int);
                }
                Some(self.rendered[i].1)
            },
            None => None,
        }
    }

    /// Produces the drain-once queue of this pass: one `(scene, epoch)`
    /// pair for every scene whose most recently rendered epoch differs
    /// from what was previously reported, and records the rendered
    /// epochs as reported.
    pub fn flush_rendered_epochs(&mut self) -> (r: RenderedEpochs)
        requires
            old(self).wf(),
        ensures
            final(self).wf(),
            tbl_unique(r@),
            forall|s: SceneId|
                #[trigger] tbl_map(r@).dom().contains(s) <==> (old(self).rendered_map().dom().contains(s) && epoch_is_new(
                    old(self).reported_map(),
                    (s, old(self).rendered_map()[s]),
                )),
            forall|s: SceneId|
                #[trigger] tbl_map(r@).dom().contains(s) ==> tbl_map(r@)[s] == old(self).rendered_map()[s],
            final(self).reported_map() == old(self).rendered_map(),
            final(self).rendered_map() == old(self).rendered_map(),
            final(self).frame_is_pending() == old(self).frame_is_pending(),
            final(self).same_but_epochs(*old(self)),
    {
        let ghost repmap = tbl_map(self.reported@);
        let mut out: Vec<(SceneId, Epoch)> = Vec::new();
        let mut i: usize = 0;
        while i < self.rendered.len()
            invariant
                i <= self.rendered@.len(),
                out@ == changed_epochs(self.rendered@.subrange(0, i as int), repmap),
                repmap == tbl_map(self.reported@),
                old(self).wf(),
                self.rendered == old(self).rendered,
                self.reported == old(self).reported,
            decreases self.rendered@.len() - i,
        {
            let (s, e) = self.rendered[i];
            let is_new: bool = match find_scene_key(&self.reported, s) {
                Some(j) => {
                    proof {
                        lemma_tbl_at(self.reported@, j as int);
                    }
                    !(self.reported[j].1 == e)
                },
                None => {
                    proof {
                        lemma_tbl_dom(self.reported@, s);
                    }
                    true
                },
            };
            proof {
                assert(is_new == epoch_is_new(repmap, (s, e)));
                let sub1 = self.rendered@.subrange(0, i as int + 1);
                assert(sub1.drop_last() =~= self.rendered@.subrange(0, i as int));
                assert(sub1.last() == self.rendered@[i as int]);
            }
            if is_new {
                out.push((s, e));
            }
            i = i + 1;
        }
        proof {
            assert(self.rendered@.subrange(0, self.rendered@.len() as int) =~= self.rendered@);
            lemma_changed_epochs(self.rendered@, repmap);
        }
        let mut copy: Vec<(SceneId, Epoch)> = Vec::new();
        let mut k: usize = 0;
        while k < self.rendered.len()
            invariant
                k <= self.rendered@.len(),
                copy@ == self.rendered@.subrange(0, k as int),
                self.rendered == old(self).rendered,
                self.reported == old(self).reported,
                old(self).wf(),
            decreases self.rendered@.len() - k,
        {
            let p = self.rendered[k];
            copy.push(p);
            proof {
                assert(self.rendered@.subrange(0, k as int).push(self.rendered@[k as int])
                    =~= self.rendered@.subrange(0, k as int + 1));
            }
            k = k + 1;
        }
        proof {
            assert(self.rendered@.subrange(0, self.rendered@.len() as int) =~= self.rendered@);
        }
        self.reported = copy;
        RenderedEpochs { data: out }
    }
}

} // verus!

verus! {

impl RenderBackend {
    /// The epoch of the most recently accepted description of a scene,
    /// or nothing when no description was ever accepted.
    pub fn accepted_epoch(&self, pipeline: SceneId) -> (r: Option<Epoch>)
        requires
            self.wf(),
        ensures
            r == self.scene_epoch(pipeline),
    {
        proof {
            lemma_tbl_dom(self.scenes@, pipeline);
        }
        match find_scene_key(&self.scenes, pipeline) {
            Some(i) => {
                proof {
                    lemma_tbl_at(self.scenes@, i as int);
                }
                Some(self.scenes[i].1.epoch)
            },
            None => None,
        }
    }

    /// The persisted transform value of a binding id, if any.
    pub fn transform_property(&self, id: u64) -> (r: Option<TransformMatrix>)
        requires
            self.wf(),
        ensures
            self.transform_prop_map().dom().contains(id) ==> r == Some(
                self.transform_prop_map()[id],
            ),
            !self.transform_prop_map().dom().contains(id) ==> r is None,
    {
        proof {
            lemma_tbl_dom(self.prop_transforms@, id);
        }
        match find_u64_key(&self.prop_transforms, id) {
            Some(i) => {
                proof {
                    lemma_tbl_at(self.prop_transforms@, i as int);
                }
                Some(self.prop_transforms[i].1)
            },
            None => None,
        }
    }

    /// The persisted opacity value of a binding id, if any, in
    /// fixed-point units.
    pub fn opacity_property(&self, id: u64) -> (r: Option<i32>)
        requires
            self.wf(),
        ensures
            self.opacity_prop_map().dom().contains(id) ==> r == Some(self.opacity_prop_map()[id]),
            !self.opacity_prop_map().dom().contains(id) ==> r is None,
    {
        proof {
            lemma_tbl_dom(self.prop_opacities@, id);
        }
        match find_u64_key(&self.prop_opacities, id) {
            Some(i) => {
                proof {
                    lemma_tbl_at(self.prop_opacities@, i as int);
                }
                Some(self.prop_opacities[i].1)
            },
            None => None,
        }
    }
}

/// The exact byte size a readback target buffer must have for a
/// `width` by `height` readback in a four-byte-per-pixel channel order,
/// when it fits in memory.
pub fn readback_buffer_size(width: u32, height: u32) -> (r: Option<usize>)
    ensures
        width * height * 4 <= usize::MAX ==> r == Some((width * height * 4) as usize),
        width * height * 4 > usize::MAX ==> r is None,
{
    proof {
        let w = width as int;
        let h = height as int;
        assert(w * h * 4 < 0x1_0000_0000_0000_0000_0000_0000_0000_0000) by (nonlinear_arith)
            requires
                0 <= w < 0x1_0000_0000,
                0 <= h < 0x1_0000_0000,
        ;
    }
    let total: u128 = (width as u128) * (height as u128) * 4u128;
    if total <= usize::MAX as u128 {
        Some(total as usize)
    } else {
        None
    }
}

} // verus!

verus! {

impl RenderBackend {
    /// The scene a frame is generated for, if one was set.
    pub fn root_pipeline_id(&self) -> (r: Option<SceneId>)
        ensures
            r == self.root_scene(),
    {
        self.root_pipeline
    }

    /// The recorded window size.
    pub fn window_parameters(&self) -> (r: (u32, u32))
        ensures
            r == self.window_size(),
    {
        (self.window_width, self.window_height)
    }
}

} // verus!

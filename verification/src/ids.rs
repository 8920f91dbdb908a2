//! Opaque identifiers that cross the renderer boundary.

use vstd::prelude::*;

verus! {

/// Identifies one scene ("pipeline"): a namespace plus a local handle,
/// unique within that namespace.
#[derive(Clone, Copy, PartialEq, Eq, Structural, Debug, Hash)]
pub struct SceneId {
    pub namespace: u32,
    pub handle: u32,
}

impl SceneId {
    pub fn new(namespace: u32, handle: u32) -> (r: SceneId)
        ensures
            r.namespace == namespace && r.handle == handle,
    {
        SceneId { namespace, handle }
    }
}

/// Version counter for one scene's most recently finalized description.
/// Strictly increasing per `SceneId` across successful renders.
#[derive(Clone, Copy, PartialEq, Eq, Structural, Debug, Hash)]
pub struct Epoch {
    pub value: u32,
}

impl Epoch {
    pub fn new(value: u32) -> (r: Epoch)
        ensures
            r.value == value,
    {
        Epoch { value }
    }

    /// Staleness test: true when `self` was issued after `other`.
    pub fn is_after(&self, other: &Epoch) -> (r: bool)
        ensures
            r == (self.value > other.value),
    {
        self.value > other.value
    }
}

/// Identifies a bitmap or blob image resource: namespace plus local handle.
#[derive(Clone, Copy, PartialEq, Eq, Structural, Debug, Hash)]
pub struct ImageKey {
    pub namespace: u32,
    pub handle: u32,
}

impl ImageKey {
    pub fn new(namespace: u32, handle: u32) -> (r: ImageKey)
        ensures
            r.namespace == namespace && r.handle == handle,
    {
        ImageKey { namespace, handle }
    }
}

/// Identifies a raw font resource: namespace plus local handle.
#[derive(Clone, Copy, PartialEq, Eq, Structural, Debug, Hash)]
pub struct FontKey {
    pub namespace: u32,
    pub handle: u32,
}

impl FontKey {
    pub fn new(namespace: u32, handle: u32) -> (r: FontKey)
        ensures
            r.namespace == namespace && r.handle == handle,
    {
        FontKey { namespace, handle }
    }
}

/// The namespace an API handle allocates its keys from.
#[derive(Clone, Copy, PartialEq, Eq, Structural, Debug, Hash)]
pub struct IdNamespace {
    pub value: u32,
}

/// Correlates a caller-owned texture or buffer with the resource table.
/// The library never owns the backing storage, only orchestrates
/// lock/unlock/release calls keyed by this id.
#[derive(Clone, Copy, PartialEq, Eq, Structural, Debug, Hash)]
pub struct ExternalImageId {
    pub value: u64,
}

impl ExternalImageId {
    pub fn new(value: u64) -> (r: ExternalImageId)
        ensures
            r.value == value,
    {
        ExternalImageId { value }
    }
}

} // verus!

//! The external image resource protocol.
//!
//! External images are resources whose backing memory or texture the
//! caller owns; the library never allocates or frees them, it only
//! orchestrates lock/unlock/release calls keyed by [`ExternalImageId`].
//! The caller supplies the three operations by implementing
//! [`ExternalImageHandler`]; lock results cross the boundary as a
//! fixed-size struct with a type flag ([`ExternalImageBoundary`]) and are
//! decoded here into a proper sum type, with the unused fields of the
//! inactive variant never read. [`ExternalImageLockTracker`] enforces the
//! discipline the protocol itself leaves to its users: at most one
//! outstanding lock per id, no lock after release.

use vstd::prelude::*;
use crate::ids::ExternalImageId;

verus! {

/// Where a locked external image's pixels come from.
#[derive(PartialEq, Eq, Debug)]
pub enum ExternalImageSource {
    /// A GPU texture object handle.
    NativeTexture(u32),
    /// Raw pixel bytes, valid only between lock and unlock.
    RawData(Vec<u8>),
}

/// A locked external image: the texture coordinates to sample, in
/// fixed-point units, and the pixel source.
#[derive(PartialEq, Eq, Debug)]
pub struct ExternalImage {
    pub u0: i32,
    pub v0: i32,
    pub u1: i32,
    pub v1: i32,
    pub source: ExternalImageSource,
}

/// The fixed-size form a lock result crosses the boundary in: a type
/// flag selects which of the two payload fields is meaningful, and the
/// other is carried as a dummy that no consumer reads.
#[derive(PartialEq, Eq, Debug)]
pub struct ExternalImageBoundary {
    /// 0 selects the native texture handle, 1 the raw byte payload.
    pub image_type: u32,
    pub handle: u32,
    pub u0: i32,
    pub v0: i32,
    pub u1: i32,
    pub v1: i32,
    pub bytes: Vec<u8>,
}

pub const EXTERNAL_IMAGE_TYPE_NATIVE: u32 = 0;

pub const EXTERNAL_IMAGE_TYPE_RAW: u32 = 1;

/// Decodes the boundary form into the proper sum type. When the flag
/// selects the native texture the byte payload is dropped unread, and
/// when it selects raw data the handle is dropped unread; any other flag
/// is rejected.
pub fn decode_external_image(b: ExternalImageBoundary) -> (r: Option<ExternalImage>)
    ensures
        b.image_type == EXTERNAL_IMAGE_TYPE_NATIVE ==> r == Some(
            ExternalImage {
                u0: b.u0,
                v0: b.v0,
                u1: b.u1,
                v1: b.v1,
                source: ExternalImageSource::NativeTexture(b.handle),
            },
        ),
        b.image_type == EXTERNAL_IMAGE_TYPE_RAW ==> r == Some(
            ExternalImage {
                u0: b.u0,
                v0: b.v0,
                u1: b.u1,
                v1: b.v1,
                source: ExternalImageSource::RawData(b.bytes),
            },
        ),
        b.image_type != EXTERNAL_IMAGE_TYPE_NATIVE && b.image_type != EXTERNAL_IMAGE_TYPE_RAW
            ==> r is None,
{
    if b.image_type == EXTERNAL_IMAGE_TYPE_NATIVE {
        Some(
            ExternalImage {
                u0: b.u0,
                v0: b.v0,
                u1: b.u1,
                v1: b.v1,
                source: ExternalImageSource::NativeTexture(b.handle),
            },
        )
    } else if b.image_type == EXTERNAL_IMAGE_TYPE_RAW {
        Some(
            ExternalImage {
                u0: b.u0,
                v0: b.v0,
                u1: b.u1,
                v1: b.v1,
                source: ExternalImageSource::RawData(b.bytes),
            },
        )
    } else {
        None
    }
}

/// The capability object the caller supplies: lock before a frame samples
/// the resource, unlock when the frame no longer needs it, release when
/// the association is torn down entirely.
pub trait ExternalImageHandler {
    fn lock(&mut self, id: ExternalImageId) -> ExternalImageBoundary;

    fn unlock(&mut self, id: ExternalImageId);

    fn release(&mut self, id: ExternalImageId);
}

/// Why a lock-protocol step was rejected.
#[derive(Clone, Copy, PartialEq, Eq, Structural, Debug)]
pub enum ExternalImageProtocolError {
    /// A second lock while one is already outstanding for the id.
    AlreadyLocked,
    /// Unlocking an id with no outstanding lock.
    NotLocked,
    /// Releasing an id whose lock is still outstanding.
    StillLocked,
    /// Locking an id that was already released.
    Released,
}

/// Enforces the lock discipline: exactly one outstanding lock per id at a
/// time, and no use of an id after its release.
pub struct ExternalImageLockTracker {
    locked: Vec<ExternalImageId>,
    released: Vec<ExternalImageId>,
}

impl ExternalImageLockTracker {
    /// Whether a lock is outstanding for `id`.
    pub closed spec fn is_locked(self, id: ExternalImageId) -> bool {
        self.locked@.contains(id)
    }

    /// Whether `id` has been released for good.
    pub closed spec fn is_released(self, id: ExternalImageId) -> bool {
        self.released@.contains(id)
    }

    pub closed spec fn wf(self) -> bool {
        forall|i: int, j: int|
            0 <= i < j < self.locked@.len() ==> #[trigger] self.locked@[i]
                != #[trigger] self.locked@[j]
    }

    /// A fresh tracker: nothing locked, nothing released.
    pub fn new() -> (r: ExternalImageLockTracker)
        ensures
            r.wf(),
            forall|id: ExternalImageId| !r.is_locked(id) && !r.is_released(id),
    {
        let r = ExternalImageLockTracker { locked: Vec::new(), released: Vec::new() };
        proof {
            assert forall|id: ExternalImageId| !r.is_locked(id) && !r.is_released(id) by {
                assert(!r.locked@.contains(id));
                assert(!r.released@.contains(id));
            }
        }
        r
    }

    fn find_locked(&self, id: ExternalImageId) -> (r: Option<usize>)
        ensures
            r matches Some(i) ==> i < self.locked@.len() && self.locked@[i as int] == id,
            r is None ==> !self.locked@.contains(id),
    {
        let mut i: usize = 0;
        while i < self.locked.len()
            invariant
                i <= self.locked@.len(),
                forall|j: int| 0 <= j < i ==> self.locked@[j] != id,
            decreases self.locked@.len() - i,
        {
            if self.locked[i] == id {
                return Some(i);
            }
            i = i + 1;
        }
        proof {
            if self.locked@.contains(id) {
                let j = choose|j: int| 0 <= j < self.locked@.len() && self.locked@[j] == id;
            }
        }
        None
    }

    fn find_released(&self, id: ExternalImageId) -> (r: Option<usize>)
        ensures
            r matches Some(i) ==> i < self.released@.len() && self.released@[i as int] == id,
            r is None ==> !self.released@.contains(id),
    {
        let mut i: usize = 0;
        while i < self.released.len()
            invariant
                i <= self.released@.len(),
                forall|j: int| 0 <= j < i ==> self.released@[j] != id,
            decreases self.released@.len() - i,
        {
            if self.released[i] == id {
                return Some(i);
            }
            i = i + 1;
        }
        proof {
            if self.released@.contains(id) {
                let j = choose|j: int| 0 <= j < self.released@.len() && self.released@[j] == id;
            }
        }
        None
    }

    /// Records a lock. A second lock on an id whose first is still
    /// outstanding, or a lock on a released id, is a protocol violation
    /// and is rejected with nothing recorded.
    pub fn lock(&mut self, id: ExternalImageId) -> (r: Result<(), ExternalImageProtocolError>)
        requires
            old(self).wf(),
        ensures
            final(self).wf(),
            old(self).is_locked(id) ==> r == Err::<(), ExternalImageProtocolError>(
                ExternalImageProtocolError::AlreadyLocked,
            ) && *final(self) == *old(self),
            !old(self).is_locked(id) && old(self).is_released(id) ==> r == Err::<
                (),
                ExternalImageProtocolError,
            >(ExternalImageProtocolError::Released) && *final(self) == *old(self),
            !old(self).is_locked(id) && !old(self).is_released(id) ==> r is Ok && final(self).is_locked(id),
            forall|x: ExternalImageId| x != id ==> final(self).is_locked(x) == old(
                self,
            ).is_locked(x),
            forall|x: ExternalImageId| final(self).is_released(x) == old(self).is_released(x),
    {
        match self.find_locked(id) {
            Some(_) => Err(ExternalImageProtocolError::AlreadyLocked),
            None => {
                match self.find_released(id) {
                    Some(_) => Err(ExternalImageProtocolError::Released),
                    None => {
                        let ghost pre = self.locked@;
                        self.locked.push(id);
                        proof {
                            assert forall|x: ExternalImageId| x != id implies final(self).is_locked(x) == old(self).is_locked(x) by {
                                if pre.contains(x) {
                                    let j = choose|j: int| 0 <= j < pre.len() && pre[j] == x;
                                    assert(self.locked@[j] == x);
                                }
                                if self.locked@.contains(x) {
                                    let j = choose|j: int|
                                        0 <= j < self.locked@.len() && self.locked@[j] == x;
                                    assert(j < pre.len());
                                    assert(pre[j] == x);
                                }
                            }
                            assert(self.locked@[self.locked@.len() - 1] == id);
                        }
                        Ok(())
                    },
                }
            },
        }
    }

    /// Records an unlock, ending the outstanding lock for `id`.
    /// Unlocking an id that is not locked is a protocol violation.
    pub fn unlock(&mut self, id: ExternalImageId) -> (r: Result<(), ExternalImageProtocolError>)
        requires
            old(self).wf(),
        ensures
            final(self).wf(),
            !old(self).is_locked(id) ==> r == Err::<(), ExternalImageProtocolError>(
                ExternalImageProtocolError::NotLocked,
            ) && *final(self) == *old(self),
            old(self).is_locked(id) ==> r is Ok && !final(self).is_locked(id),
            forall|x: ExternalImageId| x != id ==> final(self).is_locked(x) == old(
                self,
            ).is_locked(x),
            forall|x: ExternalImageId| final(self).is_released(x) == old(self).is_released(x),
    {
        match self.find_locked(id) {
            None => Err(ExternalImageProtocolError::NotLocked),
            Some(i) => {
                let ghost pre = self.locked@;
                self.locked.remove(i);
                proof {
                    pre.remove_ensures(i as int);
                    assert forall|x: ExternalImageId| x != id implies final(self).is_locked(x)
                        == old(self).is_locked(x) by {
                        if pre.contains(x) {
                            let j = choose|j: int| 0 <= j < pre.len() && pre[j] == x;
                            if j < i as int {
                                assert(self.locked@[j] == x);
                            } else {
                                assert(j != i as int);
                                assert(self.locked@[j - 1] == x);
                            }
                        }
                        if self.locked@.contains(x) {
                            let j = choose|j: int|
                                0 <= j < self.locked@.len() && self.locked@[j] == x;
                            if j < i as int {
                                assert(pre[j] == x);
                            } else {
                                assert(pre[j + 1] == x);
                            }
                        }
                    }
                    assert(!final(self).is_locked(id)) by {
                        if self.locked@.contains(id) {
                            let j = choose|j: int|
                                0 <= j < self.locked@.len() && self.locked@[j] == id;
                            if j < i as int {
                                assert(pre[j] == id);
                                assert(pre[i as int] == id);
                            } else {
                                assert(pre[j + 1] == id);
                                assert(pre[i as int] == id);
                            }
                        }
                    }
                    assert forall|a: int, b: int| 0 <= a < b < self.locked@.len() implies
                        #[trigger] self.locked@[a] != #[trigger] self.locked@[b] by {
                        let a2: int = if a < i as int {
                            a
                        } else {
                            a + 1
                        };
                        let b2: int = if b < i as int {
                            b
                        } else {
                            b + 1
                        };
                        assert(self.locked@[a] == pre[a2]);
                        assert(self.locked@[b] == pre[b2]);
                    }
                }
                Ok(())
            },
        }
    }

    /// Records that the resource association for `id` is torn down.
    /// Releasing while a lock is outstanding is a protocol violation;
    /// after a successful release no further lock on `id` is accepted.
    pub fn release(&mut self, id: ExternalImageId) -> (r: Result<(), ExternalImageProtocolError>)
        requires
            old(self).wf(),
        ensures
            final(self).wf(),
            old(self).is_locked(id) ==> r == Err::<(), ExternalImageProtocolError>(
                ExternalImageProtocolError::StillLocked,
            ) && *final(self) == *old(self),
            !old(self).is_locked(id) ==> r is Ok && final(self).is_released(id),
            forall|x: ExternalImageId| final(self).is_locked(x) == old(self).is_locked(x),
            forall|x: ExternalImageId| x != id ==> final(self).is_released(x) == old(
                self,
            ).is_released(x),
    {
        match self.find_locked(id) {
            Some(_) => Err(ExternalImageProtocolError::StillLocked),
            None => {
                let ghost pre = self.released@;
                self.released.push(id);
                proof {
                    assert forall|x: ExternalImageId| x != id implies final(self).is_released(x)
                        == old(self).is_released(x) by {
                        if pre.contains(x) {
                            let j = choose|j: int| 0 <= j < pre.len() && pre[j] == x;
                            assert(self.released@[j] == x);
                        }
                        if self.released@.contains(x) {
                            let j = choose|j: int|
                                0 <= j < self.released@.len() && self.released@[j] == x;
                            assert(j < pre.len());
                            assert(pre[j] == x);
                        }
                    }
                    assert(self.released@[self.released@.len() - 1] == id);
                }
                Ok(())
            },
        }
    }
}

} // verus!

//! The blob image pipeline: a request/resolve rendezvous that turns a
//! vector ("blob") image description into a rasterized bitmap on demand.
//!
//! Rasterization itself is delegated to a single external synchronous
//! callback owned by the boundary shell; the pipeline decides what buffer
//! the callback must fill ([`blob_buffer_size`]) and records the outcome
//! the shell hands back. Entries live from request to resolve: resolve is
//! destructive, so at most one resolve succeeds per request, and resolving
//! a key with no pending request reports an invalid key rather than
//! crashing.

use vstd::prelude::*;
use crate::ids::ImageKey;
use crate::table::{tbl_has, tbl_unique, tbl_map, lemma_tbl_dom, lemma_tbl_push, lemma_tbl_at,
    lemma_tbl_remove};

verus! {

/// Pixel format of an image resource crossing the boundary.
#[derive(Clone, Copy, PartialEq, Eq, Structural, Debug)]
pub enum ImageFormat {
    Invalid,
    A8,
    RGB8,
    RGBA8,
    BGRA8,
    RGBAF32,
}

/// Bytes per pixel of a format; `Invalid` has none.
pub open spec fn spec_bytes_per_pixel(f: ImageFormat) -> Option<u32> {
    match f {
        ImageFormat::Invalid => None,
        ImageFormat::A8 => Some(1u32),
        ImageFormat::RGB8 => Some(3u32),
        ImageFormat::RGBA8 => Some(4u32),
        ImageFormat::BGRA8 => Some(4u32),
        ImageFormat::RGBAF32 => Some(16u32),
    }
}

pub fn bytes_per_pixel(f: ImageFormat) -> (r: Option<u32>)
    ensures
        r == spec_bytes_per_pixel(f),
{
    match f {
        ImageFormat::Invalid => None,
        ImageFormat::A8 => Some(1u32),
        ImageFormat::RGB8 => Some(3u32),
        ImageFormat::RGBA8 => Some(4u32),
        ImageFormat::BGRA8 => Some(4u32),
        ImageFormat::RGBAF32 => Some(16u32),
    }
}

/// Target dimensions and format of a blob rasterization.
#[derive(Clone, Copy, PartialEq, Eq, Structural, Debug)]
pub struct BlobImageDescriptor {
    pub width: u32,
    pub height: u32,
    pub format: ImageFormat,
}

/// The exact byte size of the output buffer a rasterization must fill:
/// `width * height * bytes_per_pixel`, when the format defines a byte
/// size and the product fits in memory.
pub open spec fn spec_blob_buffer_size(d: BlobImageDescriptor) -> Option<usize> {
    match spec_bytes_per_pixel(d.format) {
        None => None,
        Some(bpp) => if d.width * d.height * bpp <= usize::MAX {
            Some((d.width * d.height * bpp) as usize)
        } else {
            None
        },
    }
}

pub fn blob_buffer_size(d: &BlobImageDescriptor) -> (r: Option<usize>)
    ensures
        r == spec_blob_buffer_size(*d),
{
    match bytes_per_pixel(d.format) {
        None => None,
        Some(bpp) => {
            proof {
                let w = d.width as int;
                let h = d.height as int;
                let b = bpp as int;
                assert(w * h * b < 0x1_0000_0000_0000_0000_0000_0000_0000_0000) by (nonlinear_arith)
                    requires
                        0 <= w < 0x1_0000_0000,
                        0 <= h < 0x1_0000_0000,
                        0 <= b < 0x1_0000_0000,
                ;
            }
            let total: u128 = (d.width as u128) * (d.height as u128) * (bpp as u128);
            if total <= usize::MAX as u128 {
                Some(total as usize)
            } else {
                None
            }
        },
    }
}

/// Why a blob request or resolve failed.
#[derive(Clone, Copy, PartialEq, Eq, Structural, Debug)]
pub enum BlobImageError {
    /// Resolving a key with no pending request.
    InvalidKey,
    /// The rasterization callback signalled failure, or handed back a
    /// buffer of the wrong size.
    Rendering,
    /// The requested format has no defined byte size, or the buffer size
    /// does not fit in memory; a request error, not a crash, since it can
    /// originate from caller-supplied descriptors.
    InvalidFormat,
}

/// A successfully rasterized blob image.
#[derive(PartialEq, Eq, Debug)]
pub struct RasterizedBlobImage {
    pub width: u32,
    pub height: u32,
    pub data: Vec<u8>,
}

/// The outcome of one pending-or-ready request.
pub type BlobImageResult = Result<RasterizedBlobImage, BlobImageError>;

/// What the boundary shell reports back from the external rasterization
/// callback: the filled output buffer, or that the callback returned
/// failure.
#[derive(Debug)]
pub enum BlobRasterOutcome {
    Rendered(Vec<u8>),
    Failed,
}

/// The result a request stores for its key, given the descriptor and the
/// callback outcome: a format without a defined buffer size is a request
/// error; a failed callback, or an output buffer of the wrong size, is a
/// rendering error; otherwise the rasterized image is ready.
pub open spec fn blob_request_result(
    d: BlobImageDescriptor,
    raster: BlobRasterOutcome,
) -> BlobImageResult {
    match spec_blob_buffer_size(d) {
        None => Err(BlobImageError::InvalidFormat),
        Some(size) => match raster {
            BlobRasterOutcome::Rendered(data) => if data@.len() == size {
                Ok(RasterizedBlobImage { width: d.width, height: d.height, data })
            } else {
                Err(BlobImageError::Rendering)
            },
            BlobRasterOutcome::Failed => Err(BlobImageError::Rendering),
        },
    }
}

/// The request/resolve cache, keyed by image key. Its abstract value is
/// the map from pending keys to their stored outcomes.
pub struct BlobImagePipeline {
    entries: Vec<(ImageKey, BlobImageResult)>,
}

impl View for BlobImagePipeline {
    type V = Map<ImageKey, BlobImageResult>;

    closed spec fn view(&self) -> Map<ImageKey, BlobImageResult> {
        tbl_map(self.entries@)
    }
}

impl BlobImagePipeline {
    pub closed spec fn wf(self) -> bool {
        tbl_unique(self.entries@)
    }

    /// An empty pipeline with no pending requests.
    pub fn new() -> (r: BlobImagePipeline)
        ensures
            r.wf(),
            r@ == Map::<ImageKey, BlobImageResult>::empty(),
    {
        BlobImagePipeline { entries: Vec::new() }
    }

    /// The index of the entry carrying `key`, if any.
    fn find(&self, key: ImageKey) -> (r: Option<usize>)
        ensures
            r matches Some(i) ==> i < self.entries@.len() && self.entries@[i as int].0 == key,
            r is None ==> !tbl_has(self.entries@, key),
    {
        let mut i: usize = 0;
        while i < self.entries.len()
            invariant
                i <= self.entries@.len(),
                forall|j: int| 0 <= j < i ==> #[trigger] self.entries@[j].0 != key,
            decreases self.entries@.len() - i,
        {
            if self.entries[i].0 == key {
                return Some(i);
            }
            i = i + 1;
        }
        None
    }

    /// Whether `key` has a pending request.
    pub fn has_pending(&self, key: ImageKey) -> (r: bool)
        requires
            self.wf(),
        ensures
            r == self@.dom().contains(key),
    {
        proof {
            lemma_tbl_dom(self.entries@, key);
        }
        match self.find(key) {
            Some(i) => {
                proof {
                    assert(tbl_has(self.entries@, key));
                }
                true
            },
            None => false,
        }
    }

    /// Records the outcome of rasterizing `key`: the stored result is
    /// exactly [`blob_request_result`] of the descriptor and the callback
    /// outcome, replacing any earlier entry for the key.
    pub fn request_blob_image(
        &mut self,
        key: ImageKey,
        descriptor: &BlobImageDescriptor,
        raster: BlobRasterOutcome,
    )
        requires
            old(self).wf(),
        ensures
            final(self).wf(),
            final(self)@ == old(self)@.insert(key, blob_request_result(*descriptor, raster)),
    {
        let result: BlobImageResult = match blob_buffer_size(descriptor) {
            None => Err(BlobImageError::InvalidFormat),
            Some(size) => match raster {
                BlobRasterOutcome::Rendered(data) => {
                    if data.len() == size {
                        Ok(
                            RasterizedBlobImage {
                                width: descriptor.width,
                                height: descriptor.height,
                                data,
                            },
                        )
                    } else {
                        Err(BlobImageError::Rendering)
                    }
                },
                BlobRasterOutcome::Failed => Err(BlobImageError::Rendering),
            },
        };
        match self.find(key) {
            Some(i) => {
                proof {
                    lemma_tbl_remove(self.entries@, i as int);
                }
                let ghost pre = self.entries@;
                self.entries.remove(i);
                proof {
                    lemma_tbl_push(self.entries@, key, result);
                    lemma_tbl_dom(self.entries@, key);
                    assert(!tbl_has(self.entries@, key)) by {
                        if tbl_has(self.entries@, key) {
                            let j = choose|j: int|
                                0 <= j < self.entries@.len() && self.entries@[j].0 == key;
                            pre.remove_ensures(i as int);
                            let j2: int = if j < i as int {
                                j
                            } else {
                                j + 1
                            };
                            assert(pre[j2].0 == key);
                            assert(pre[i as int].0 == key);
                        }
                    }
                    assert(tbl_map(pre).remove(key).insert(key, result) =~= tbl_map(
                        pre,
                    ).insert(key, result));
                }
                self.entries.push((key, result));
            },
            None => {
                proof {
                    lemma_tbl_push(self.entries@, key, result);
                }
                self.entries.push((key, result));
            },
        }
    }

    /// Removes and returns the stored result for `key`. Resolving a key
    /// with no pending request — including a second resolve without an
    /// intervening request — yields an invalid-key error and changes
    /// nothing.
    pub fn resolve_blob_image(&mut self, key: ImageKey) -> (r: BlobImageResult)
        requires
            old(self).wf(),
        ensures
            final(self).wf(),
            old(self)@.dom().contains(key) ==> r == old(self)@[key] && final(self)@ == old(
                self,
            )@.remove(key),
            !old(self)@.dom().contains(key) ==> r == Err::<RasterizedBlobImage, BlobImageError>(
                BlobImageError::InvalidKey,
            ) && final(self)@ == old(self)@,
    {
        proof {
            lemma_tbl_dom(self.entries@, key);
        }
        match self.find(key) {
            Some(i) => {
                proof {
                    lemma_tbl_at(self.entries@, i as int);
                    lemma_tbl_remove(self.entries@, i as int);
                }
                let (_k, result) = self.entries.remove(i);
                result
            },
            None => Err(BlobImageError::InvalidKey),
        }
    }
}

} // verus!

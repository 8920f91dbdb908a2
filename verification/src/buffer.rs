//! Ownership carrier for heap byte buffers crossing the boundary.
//!
//! A finalized scene's payload leaves the builder inside a
//! [`ByteBufferHandle`]. The handle owns the buffer; converting it back with
//! [`ByteBufferHandle::into_buffer`] or disposing of it with
//! [`ByteBufferHandle::free`] consumes the handle by move, so a second
//! conversion of the same handle is unrepresentable rather than a run-time
//! hazard. No accessor is callable after the move, and there is no way to
//! duplicate a handle.

use vstd::prelude::*;

verus! {

/// A moved-out heap byte buffer with exactly one live owner.
#[derive(Debug)]
pub struct ByteBufferHandle {
    data: Vec<u8>,
}

impl View for ByteBufferHandle {
    type V = Seq<u8>;

    closed spec fn view(&self) -> Seq<u8> {
        self.data@
    }
}

impl ByteBufferHandle {
    /// Moves ownership of `buffer` into a handle without copying.
    pub fn from_buffer(buffer: Vec<u8>) -> (h: ByteBufferHandle)
        ensures
            h@ == buffer@,
    {
        ByteBufferHandle { data: buffer }
    }

    /// The unique valid reconstruction: hands the buffer back and consumes
    /// the handle, so it can be called at most once per handle.
    pub fn into_buffer(self) -> (buffer: Vec<u8>)
        ensures
            buffer@ == self@,
    {
        self.data
    }

    /// Disposal for callers that only need to release the buffer;
    /// equivalent to reconstructing and dropping.
    pub fn free(self)
    {
        let _buffer: Vec<u8> = self.data;
    }

    /// Length of the carried buffer in bytes.
    pub fn len(&self) -> (n: usize)
        ensures
            n == self@.len(),
    {
        self.data.len()
    }
}

} // verus!

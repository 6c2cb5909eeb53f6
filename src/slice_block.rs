//! A block over a contiguous array of plain-data elements.

use crate::sink::{ByteSink, WriteError};
use crate::table::GpuData;
use vstd::prelude::*;

verus! {

/// Relies on `bytemuck::cast_slice` into `u8`: the elements' memory viewed
/// as bytes, `size_of::<T>()` bytes per element. Into `u8` the cast cannot
/// fail, since `u8` has size and alignment 1.
#[verifier::external_body]
fn pod_bytes<T: bytemuck::Pod>(s: &[T]) -> (r: &[u8])
    ensures
        r@.len() == vstd::layout::size_of::<T>() * s@.len(),
{
    bytemuck::cast_slice(s)
}

/// A block whose bytes are the memory of a contiguous array, written in one
/// bulk copy.
pub struct SliceBlock<'a> {
    bytes: &'a [u8],
}

impl<'a> SliceBlock<'a> {
    /// The block over the elements of `s`, in their in-memory form.
    pub fn new<T: bytemuck::Pod>(s: &'a [T]) -> (r: SliceBlock<'a>)
        ensures
            r.bytes().len() == vstd::layout::size_of::<T>() * s@.len(),
    {
        SliceBlock { bytes: pod_bytes(s) }
    }

    /// The block over raw bytes.
    pub fn from_bytes(bytes: &'a [u8]) -> (r: SliceBlock<'a>)
        ensures
            r.bytes() == bytes@,
    {
        SliceBlock { bytes }
    }
}

impl<'a> GpuData for SliceBlock<'a> {
    closed spec fn bytes(&self) -> Seq<u8> {
        self.bytes@
    }

    open spec fn wf(&self) -> bool {
        true
    }

    fn size(&self) -> (r: usize) {
        self.bytes.len()
    }

    fn write_into(self, writer: &mut ByteSink) -> (r: Result<(), WriteError>) {
        writer.write_all(self.bytes)
    }
}

} // verus!

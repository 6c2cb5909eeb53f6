//! Packs an ordered chain of typed data blocks into one buffer for upload to
//! a GPU structured buffer: a header of word offsets, one per block, followed
//! by the raw bytes of every block in the order the blocks were appended.

pub mod laws;
pub mod layout;
pub mod sink;
pub mod slice_block;
pub mod table;

pub use sink::{ByteSink, WriteError};
pub use slice_block::SliceBlock;
pub use table::{append_gpu_data, Cons, EmptyGpuTable, GpuData, GpuTable};

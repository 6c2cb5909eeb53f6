//! Blocks, tables, and the chain that appending builds.

use crate::layout::{lemma_concat_push, lemma_header_len, lemma_header_push};
use crate::sink::{lemma_wrote_failed_prefix, lemma_wrote_then, ByteSink, WriteError};
use vstd::prelude::*;

verus! {

/// One block of data: it knows its size in bytes and writes those bytes once.
pub trait GpuData: Sized {
    /// The bytes the block writes. A block that does not say so is taken to
    /// write none.
    closed spec fn bytes(&self) -> Seq<u8> {
        Seq::empty()
    }

    /// Whether the block can be sized and written: its bytes are described by
    /// `bytes` and fit in `usize`. A block that does not say so is never
    /// taken to be well formed, so nothing is promised of it.
    closed spec fn wf(&self) -> bool {
        false
    }

    /// The number of bytes the block writes.
    fn size(&self) -> (r: usize)
        requires
            self.wf(),
        ensures
            r == self.bytes().len(),
    ;

    /// Writes the block's bytes into `writer`, consuming the block.
    fn write_into(self, writer: &mut ByteSink) -> (r: Result<(), WriteError>)
        requires
            self.wf(),
        ensures
            crate::sink::wrote(*old(writer), *final(writer), self.bytes(), r),
    ;
}

/// A chain of blocks that writes a header of word offsets, one per block,
/// followed by the bytes of every block, both in append order.
pub trait GpuTable: GpuData {
    /// The bytes of each block, in append order.
    spec fn blocks(&self) -> Seq<Seq<u8>>;

    /// Written as a whole, a table writes its header and then its data, and
    /// the whole fits in `usize`.
    proof fn lemma_table_bytes(&self)
        requires
            self.wf(),
        ensures
            self.bytes() == crate::layout::image(self.blocks()),
            4 * self.blocks().len() + crate::layout::concat(self.blocks()).len() <= usize::MAX,
    ;

    /// The number of blocks.
    fn data_count(&self) -> (r: usize)
        requires
            self.wf(),
        ensures
            r == self.blocks().len(),
    ;

    /// The size of the data section: the sizes of all blocks added up.
    fn data_size(&self) -> (r: usize)
        requires
            self.wf(),
        ensures
            r == crate::layout::concat(self.blocks()).len(),
    ;

    /// Writes the header entries of all blocks, in append order, for a data
    /// section that begins `data_offset` bytes into the buffer.
    fn write_header_into(&self, data_offset: usize, writer: &mut ByteSink) -> (r: Result<(), WriteError>)
        requires
            self.wf(),
            data_offset + crate::layout::concat(self.blocks()).len() <= usize::MAX,
        ensures
            crate::sink::wrote(
                *old(writer),
                *final(writer),
                crate::layout::header(self.blocks(), data_offset as int),
                r,
            ),
    ;

    /// Writes the bytes of all blocks, in append order, consuming the table.
    fn write_data_into(self, writer: &mut ByteSink) -> (r: Result<(), WriteError>)
        requires
            self.wf(),
        ensures
            crate::sink::wrote(*old(writer), *final(writer), crate::layout::concat(self.blocks()), r),
    ;
}

/// The table of no blocks, from which every chain starts.
#[derive(Debug, Clone, Copy, PartialEq, Eq, Structural)]
pub struct EmptyGpuTable;

impl GpuData for EmptyGpuTable {
    open spec fn bytes(&self) -> Seq<u8> {
        Seq::empty()
    }

    open spec fn wf(&self) -> bool {
        true
    }

    fn size(&self) -> (r: usize) {
        0
    }

    fn write_into(self, writer: &mut ByteSink) -> (r: Result<(), WriteError>) {
        assert(old(writer)@ + Seq::<u8>::empty() =~= old(writer)@);
        Ok(())
    }
}

impl GpuTable for EmptyGpuTable {
    open spec fn blocks(&self) -> Seq<Seq<u8>> {
        Seq::empty()
    }

    proof fn lemma_table_bytes(&self) {
        assert(crate::layout::image(self.blocks()) =~= Seq::<u8>::empty());
    }

    fn data_count(&self) -> (r: usize) {
        0
    }

    fn data_size(&self) -> (r: usize) {
        0
    }

    fn write_header_into(&self, _data_offset: usize, writer: &mut ByteSink) -> (r: Result<(), WriteError>) {
        assert(old(writer)@ + Seq::<u8>::empty() =~= old(writer)@);
        Ok(())
    }

    fn write_data_into(self, writer: &mut ByteSink) -> (r: Result<(), WriteError>) {
        assert(old(writer)@ + Seq::<u8>::empty() =~= old(writer)@);
        Ok(())
    }
}

/// A table made of the table `tail` with the block `head` appended on top.
pub struct Cons<D: GpuData, T: GpuTable> {
    pub head: D,
    pub tail: T,
}

impl<D: GpuData, T: GpuTable> GpuData for Cons<D, T> {
    open spec fn bytes(&self) -> Seq<u8>
        decreases self,
    {
        crate::layout::image(self.tail.blocks().push(self.head.bytes()))
    }

    open spec fn wf(&self) -> bool {
        &&& self.head.wf()
        &&& self.tail.wf()
        &&& 4 * (self.tail.blocks().len() + 1) + crate::layout::concat(self.tail.blocks()).len()
            + self.head.bytes().len() <= usize::MAX
    }

    fn size(&self) -> (r: usize) {
        proof {
            self.lemma_table_bytes();
            lemma_header_len(self.blocks(), 4 * self.blocks().len() as int);
        }
        4 * self.data_count() + self.data_size()
    }

    fn write_into(self, writer: &mut ByteSink) -> (r: Result<(), WriteError>) {
        proof {
            self.lemma_table_bytes();
        }
        let ghost blocks = self.blocks();
        let ghost s0 = *writer;
        let data_offset = 4 * self.data_count();
        let r1 = self.write_header_into(data_offset, writer);
        let ghost s1 = *writer;
        match r1 {
            Err(e) => {
                proof {
                    lemma_wrote_failed_prefix(
                        s0,
                        s1,
                        crate::layout::header(blocks, data_offset as int),
                        crate::layout::concat(blocks),
                        r1,
                    );
                }
                Err(e)
            },
            Ok(()) => {
                let r2 = self.write_data_into(writer);
                proof {
                    lemma_wrote_then(
                        s0,
                        s1,
                        *writer,
                        crate::layout::header(blocks, data_offset as int),
                        crate::layout::concat(blocks),
                        r1,
                        r2,
                    );
                }
                r2
            },
        }
    }
}

impl<D: GpuData, T: GpuTable> GpuTable for Cons<D, T> {
    open spec fn blocks(&self) -> Seq<Seq<u8>>
        decreases self,
    {
        self.tail.blocks().push(self.head.bytes())
    }

    proof fn lemma_table_bytes(&self) {
        lemma_concat_push(self.tail.blocks(), self.head.bytes());
    }

    fn data_count(&self) -> (r: usize) {
        proof {
            self.tail.lemma_table_bytes();
        }
        self.tail.data_count() + 1
    }

    fn data_size(&self) -> (r: usize) {
        proof {
            lemma_concat_push(self.tail.blocks(), self.head.bytes());
        }
        self.tail.data_size() + self.head.size()
    }

    fn write_header_into(&self, data_offset: usize, writer: &mut ByteSink) -> (r: Result<(), WriteError>) {
        let ghost s0 = *writer;
        let ghost earlier = crate::layout::header(self.tail.blocks(), data_offset as int);
        proof {
            lemma_concat_push(self.tail.blocks(), self.head.bytes());
            lemma_header_push(self.tail.blocks(), self.head.bytes(), data_offset as int);
        }
        let r1 = self.tail.write_header_into(data_offset, writer);
        let ghost s1 = *writer;
        let offset = data_offset + self.tail.data_size();
        let ghost own = crate::sink::word_bytes(
            crate::layout::word_offset(offset as int),
            vstd::endian::endianness(),
        );
        match r1 {
            Err(e) => {
                proof {
                    lemma_wrote_failed_prefix(s0, s1, earlier, own, r1);
                }
                Err(e)
            },
            Ok(()) => {
                let offset4 = (offset / 4) as u32;
                let r2 = writer.write_word(offset4);
                proof {
                    lemma_wrote_then(s0, s1, *writer, earlier, own, r1, r2);
                }
                r2
            },
        }
    }

    fn write_data_into(self, writer: &mut ByteSink) -> (r: Result<(), WriteError>) {
        let ghost s0 = *writer;
        let ghost earlier = crate::layout::concat(self.tail.blocks());
        let ghost own = self.head.bytes();
        proof {
            lemma_concat_push(self.tail.blocks(), self.head.bytes());
        }
        let r1 = self.tail.write_data_into(writer);
        let ghost s1 = *writer;
        match r1 {
            Err(e) => {
                proof {
                    lemma_wrote_failed_prefix(s0, s1, earlier, own, r1);
                }
                Err(e)
            },
            Ok(()) => {
                let r2 = self.head.write_into(writer);
                proof {
                    lemma_wrote_then(s0, s1, *writer, earlier, own, r1, r2);
                }
                r2
            },
        }
    }
}

/// Appends `gpu_data` on top of `gpu_table`: the new table holds the blocks of
/// `gpu_table` followed by `gpu_data`. Nothing is written.
pub fn append_gpu_data<T: GpuTable, D: GpuData>(gpu_table: T, gpu_data: D) -> (r: Cons<D, T>)
    requires
        gpu_table.wf(),
        gpu_data.wf(),
        4 * (gpu_table.blocks().len() + 1) + crate::layout::concat(gpu_table.blocks()).len()
            + gpu_data.bytes().len() <= usize::MAX,
    ensures
        r.wf(),
        r.blocks() == gpu_table.blocks().push(gpu_data.bytes()),
{
    Cons { head: gpu_data, tail: gpu_table }
}

} // verus!

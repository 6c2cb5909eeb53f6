//! What holds of every table and every write of one.

use crate::layout::{concat, header, image, lemma_concat_block, lemma_header_entry, lemma_header_len, word_offset};
use crate::sink::{word_bytes, wrote, ByteSink, WriteError};
use crate::table::{Cons, EmptyGpuTable, GpuData, GpuTable};
use vstd::endian::endianness;
use vstd::prelude::*;

verus! {

/// A table writes four bytes of header per block plus the bytes of its
/// blocks. Written into an empty sink with exactly that much room, the write
/// succeeds and fills the sink; with one byte less, it fails.
pub proof fn size_consistency<T: GpuTable>(t: &T, before: ByteSink, after: ByteSink, r: Result<(), WriteError>)
    requires
        t.wf(),
        before@.len() == 0,
        wrote(before, after, t.bytes(), r),
    ensures
        t.bytes().len() == 4 * t.blocks().len() + concat(t.blocks()).len(),
        before.room() == t.bytes().len() ==> r is Ok && after@ == t.bytes() && after.room() == 0,
        before.room() + 1 == t.bytes().len() ==> r is Err,
{
    t.lemma_table_bytes();
    lemma_header_len(t.blocks(), 4 * t.blocks().len() as int);
    assert(before@ + t.bytes() =~= t.bytes());
}

/// For blocks appended in the order B0, B1, ..., the `i`-th four-byte entry
/// of the written header is `(4 * N + size(B0) + ... + size(B(i-1))) / 4`,
/// with N the number of blocks, in the machine's byte order.
pub proof fn header_order<T: GpuTable>(t: &T, i: int)
    requires
        t.wf(),
        0 <= i < t.blocks().len(),
    ensures
        t.bytes().subrange(4 * i, 4 * i + 4) == word_bytes(
            word_offset((4 * t.blocks().len() + concat(t.blocks().take(i)).len()) as int),
            endianness(),
        ),
{
    let blocks = t.blocks();
    let n = 4 * blocks.len() as int;
    t.lemma_table_bytes();
    lemma_header_len(blocks, n);
    lemma_header_entry(blocks, n, i);
    assert(image(blocks).subrange(4 * i, 4 * i + 4) =~= header(blocks, n).subrange(4 * i, 4 * i + 4));
}

/// After the header, the written table holds the bytes of B0, then those of
/// B1, and so on, with no gap or overlap: block `i` starts where the blocks
/// before it end, and the data section ends with the last block.
pub proof fn data_order<T: GpuTable>(t: &T, i: int)
    requires
        t.wf(),
        0 <= i < t.blocks().len(),
    ensures
        t.bytes().len() == 4 * t.blocks().len() + concat(t.blocks()).len(),
        t.bytes().subrange(4 * t.blocks().len() as int, t.bytes().len() as int) == concat(t.blocks()),
        concat(t.blocks().take(i + 1)) == concat(t.blocks().take(i)) + t.blocks()[i],
        t.bytes().subrange(
            (4 * t.blocks().len() + concat(t.blocks().take(i)).len()) as int,
            (4 * t.blocks().len() + concat(t.blocks().take(i + 1)).len()) as int,
        ) == t.blocks()[i],
{
    let blocks = t.blocks();
    let n = 4 * blocks.len() as int;
    t.lemma_table_bytes();
    lemma_header_len(blocks, n);
    lemma_concat_block(blocks, i);
    assert(image(blocks).subrange(n, image(blocks).len() as int) =~= concat(blocks));
    assert(image(blocks).subrange(
        n + concat(blocks.take(i)).len(),
        n + concat(blocks.take(i + 1)).len(),
    ) =~= concat(blocks).subrange(concat(blocks.take(i)).len() as int, concat(blocks.take(i + 1)).len() as int));
}

/// The empty table holds no blocks, and each append adds exactly one, so a
/// chain of N appends onto the empty table holds N blocks.
pub proof fn count_invariant<D: GpuData, T: GpuTable>(e: EmptyGpuTable, c: &Cons<D, T>)
    ensures
        e.blocks().len() == 0,
        c.blocks().len() == c.tail.blocks().len() + 1,
        c.blocks().last() == c.head.bytes(),
{
}

/// Read back through its header, a written table gives back its blocks:
/// when every block's size is a multiple of four and the buffer is smaller
/// than 2^34 bytes, four times the header entry of block `i` is where the
/// bytes of block `i` start, and the bytes found there are those of block `i`.
pub proof fn round_trip<T: GpuTable>(t: &T, i: int)
    requires
        t.wf(),
        0 <= i < t.blocks().len(),
        forall|j: int| 0 <= j < t.blocks().len() ==> #[trigger] t.blocks()[j].len() % 4 == 0,
        t.bytes().len() < 0x4_0000_0000,
    ensures
        ({
            let entry = word_offset((4 * t.blocks().len() + concat(t.blocks().take(i)).len()) as int);
            &&& 4 * entry == 4 * t.blocks().len() + concat(t.blocks().take(i)).len()
            &&& t.bytes().subrange(4 * entry, 4 * entry + t.blocks()[i].len()) == t.blocks()[i]
        }),
{
    let blocks = t.blocks();
    let before = blocks.take(i);
    assert forall|j: int| 0 <= j < before.len() implies #[trigger] before[j].len() % 4 == 0 by {
        assert(before[j] == blocks[j]);
    }
    crate::layout::lemma_concat_aligned(before);
    data_order(t, i);
    lemma_concat_block(blocks, i);
    let start = (4 * blocks.len() + concat(before).len()) as int;
    assert(start / 4 < 0x1_0000_0000);
    assert(4 * word_offset(start) == start);
}

} // verus!

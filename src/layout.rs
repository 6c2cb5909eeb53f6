//! The mathematical form of a written table: a header of word offsets, one
//! per block, followed by the bytes of every block in append order.

use vstd::endian::endianness;
use vstd::prelude::*;

verus! {

/// The bytes of all blocks laid end to end, first block first.
pub open spec fn concat(blocks: Seq<Seq<u8>>) -> Seq<u8>
    decreases blocks.len(),
{
    if blocks.len() == 0 {
        Seq::empty()
    } else {
        concat(blocks.drop_last()) + blocks.last()
    }
}

/// The header entry for a block whose data starts `start` bytes into the
/// buffer: the offset in 4-byte words, rounded down, as a 32-bit word.
pub open spec fn word_offset(start: int) -> u32 {
    (start / 4) as u32
}

/// The header entries of `blocks` when the data section begins
/// `data_offset` bytes into the buffer, one word per block in append order.
pub open spec fn header(blocks: Seq<Seq<u8>>, data_offset: int) -> Seq<u8>
    decreases blocks.len(),
{
    if blocks.len() == 0 {
        Seq::empty()
    } else {
        header(blocks.drop_last(), data_offset) + crate::sink::word_bytes(
            word_offset(data_offset + concat(blocks.drop_last()).len()),
            endianness(),
        )
    }
}

/// The whole buffer written for a table of `blocks`: the header, sized four
/// bytes per block, then the data section.
pub open spec fn image(blocks: Seq<Seq<u8>>) -> Seq<u8> {
    header(blocks, 4 * blocks.len() as int) + concat(blocks)
}

/// Appending a block appends its bytes to the data section.
pub proof fn lemma_concat_push(blocks: Seq<Seq<u8>>, b: Seq<u8>)
    ensures
        concat(blocks.push(b)) == concat(blocks) + b,
{
    assert(blocks.push(b).drop_last() =~= blocks);
}

/// Appending a block appends its entry to the header.
pub proof fn lemma_header_push(blocks: Seq<Seq<u8>>, b: Seq<u8>, data_offset: int)
    ensures
        header(blocks.push(b), data_offset) == header(blocks, data_offset)
            + crate::sink::word_bytes(word_offset(data_offset + concat(blocks).len()), endianness()),
{
    assert(blocks.push(b).drop_last() =~= blocks);
}

/// The header holds four bytes per block.
pub proof fn lemma_header_len(blocks: Seq<Seq<u8>>, data_offset: int)
    ensures
        header(blocks, data_offset).len() == 4 * blocks.len(),
    decreases blocks.len(),
{
    if blocks.len() > 0 {
        lemma_header_len(blocks.drop_last(), data_offset);
    }
}

/// The `i`-th four bytes of the header are the entry of block `i`: the data
/// offset plus the sizes of the blocks before it, in words, rounded down.
pub proof fn lemma_header_entry(blocks: Seq<Seq<u8>>, data_offset: int, i: int)
    requires
        0 <= i < blocks.len(),
    ensures
        header(blocks, data_offset).subrange(4 * i, 4 * i + 4) == crate::sink::word_bytes(
            word_offset(data_offset + concat(blocks.take(i)).len()),
            endianness(),
        ),
    decreases blocks.len(),
{
    let prev = blocks.drop_last();
    lemma_header_len(prev, data_offset);
    if i == blocks.len() - 1 {
        assert(blocks.take(i) =~= prev);
        assert(header(blocks, data_offset).subrange(4 * i, 4 * i + 4) =~= crate::sink::word_bytes(
            word_offset(data_offset + concat(prev).len()),
            endianness(),
        ));
    } else {
        lemma_header_entry(prev, data_offset, i);
        assert(prev.take(i) =~= blocks.take(i));
        assert(header(blocks, data_offset).subrange(4 * i, 4 * i + 4) =~= header(prev, data_offset).subrange(
            4 * i,
            4 * i + 4,
        ));
    }
}

/// Block `i` occupies the data section right after the blocks before it.
pub proof fn lemma_concat_block(blocks: Seq<Seq<u8>>, i: int)
    requires
        0 <= i < blocks.len(),
    ensures
        concat(blocks.take(i + 1)) == concat(blocks.take(i)) + blocks[i],
        concat(blocks.take(i + 1)).len() <= concat(blocks).len(),
        concat(blocks).subrange(concat(blocks.take(i)).len() as int, concat(blocks.take(i + 1)).len() as int)
            == blocks[i],
    decreases blocks.len(),
{
    let prev = blocks.drop_last();
    assert(blocks.take(i + 1).drop_last() =~= blocks.take(i));
    if i == blocks.len() - 1 {
        assert(blocks.take(i + 1) =~= blocks);
        assert(blocks.take(i) =~= prev);
        assert(concat(blocks).subrange(concat(prev).len() as int, concat(blocks).len() as int) =~= blocks[i]);
    } else {
        lemma_concat_block(prev, i);
        assert(prev.take(i) =~= blocks.take(i));
        assert(prev.take(i + 1) =~= blocks.take(i + 1));
        assert(concat(blocks).subrange(concat(blocks.take(i)).len() as int, concat(blocks.take(i + 1)).len() as int)
            =~= concat(prev).subrange(concat(blocks.take(i)).len() as int, concat(blocks.take(i + 1)).len() as int));
    }
}

/// When every block's size is a multiple of four, so is the data section.
pub proof fn lemma_concat_aligned(blocks: Seq<Seq<u8>>)
    requires
        forall|j: int| 0 <= j < blocks.len() ==> #[trigger] blocks[j].len() % 4 == 0,
    ensures
        concat(blocks).len() % 4 == 0,
    decreases blocks.len(),
{
    if blocks.len() > 0 {
        let prev = blocks.drop_last();
        assert forall|j: int| 0 <= j < prev.len() implies #[trigger] prev[j].len() % 4 == 0 by {
            assert(prev[j] == blocks[j]);
        }
        lemma_concat_aligned(prev);
    }
}

} // verus!

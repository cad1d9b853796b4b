//! Chunk arithmetic: which chunks a byte range covers.
use vstd::prelude::*;

verus! {

/// The first and the last chunk that the range `[offset, offset + len)` covers. A range of no
/// length is in the chunk that its offset is in.
pub fn block_range(offset: u64, len: u64, chunk_size: u64) -> (r: (u64, u64))
    requires
        chunk_size > 0,
        len > 0 ==> offset + len - 1 <= u64::MAX,
    ensures
        r.0 == offset as int / chunk_size as int,
        r.1 == (if len == 0 {
            offset as int
        } else {
            offset + len - 1
        }) / chunk_size as int,
{
    if len == 0 {
        let idx: u64 = offset / chunk_size;
        return (idx, idx);
    }
    let last_byte: u64 = offset + (len - 1);
    (offset / chunk_size, last_byte / chunk_size)
}

/// Where `offset` lies within its chunk.
pub fn offset_in_block(offset: u64, chunk_size: u64) -> (r: u64)
    requires
        chunk_size > 0,
    ensures
        r == offset as int % chunk_size as int,
{
    offset % chunk_size
}

/// A byte's place is its chunk's start and its place within the chunk.
pub proof fn block_and_offset_give_place(offset: int, chunk_size: int)
    requires
        chunk_size > 0,
    ensures
        offset == (offset / chunk_size) * chunk_size + offset % chunk_size,
        0 <= offset % chunk_size < chunk_size,
{
    vstd::arithmetic::div_mod::lemma_fundamental_div_mod(offset, chunk_size);
    vstd::arithmetic::div_mod::lemma_mod_bound(offset, chunk_size);
    assert(chunk_size * (offset / chunk_size) == (offset / chunk_size) * chunk_size)
        by (nonlinear_arith);
}

/// Exactly the chunks from the first to the last hold a byte of the range.
pub proof fn block_range_is_exact(offset: int, len: int, chunk_size: int, idx: int)
    requires
        chunk_size > 0,
        len > 0,
        0 <= offset,
        0 <= idx,
    ensures
        offset / chunk_size <= idx <= (offset + len - 1) / chunk_size <==> exists|p: int|
            offset <= p < offset + len && #[trigger] (p / chunk_size) == idx,
{
    let first = offset / chunk_size;
    let last = (offset + len - 1) / chunk_size;
    if first <= idx <= last {
        if idx == first {
            assert(offset / chunk_size == idx);
        } else {
            let p = idx * chunk_size;
            block_and_offset_give_place(offset, chunk_size);
            block_and_offset_give_place(offset + len - 1, chunk_size);
            assert(p >= (first + 1) * chunk_size) by (nonlinear_arith)
                requires
                    p == idx * chunk_size,
                    idx >= first + 1,
                    chunk_size > 0,
            ;
            assert((first + 1) * chunk_size == first * chunk_size + chunk_size)
                by (nonlinear_arith);
            assert(p <= last * chunk_size) by (nonlinear_arith)
                requires
                    p == idx * chunk_size,
                    idx <= last,
                    chunk_size > 0,
            ;
            vstd::arithmetic::div_mod::lemma_div_by_multiple(idx, chunk_size);
            assert(p / chunk_size == idx);
        }
    }
    if exists|p: int| offset <= p < offset + len && #[trigger] (p / chunk_size) == idx {
        let p = choose|p: int| offset <= p < offset + len && #[trigger] (p / chunk_size) == idx;
        vstd::arithmetic::div_mod::lemma_div_is_ordered(offset, p, chunk_size);
        vstd::arithmetic::div_mod::lemma_div_is_ordered(p, offset + len - 1, chunk_size);
    }
}

} // verus!

//! The backing store as a sequence of bytes, what a transfer does to it, and
//! the laws that follow.
use vstd::prelude::*;

use crate::geometry::Geometry;

verus! {

/// `n` zero bytes.
pub open spec fn zeros(n: int) -> Seq<u8> {
    Seq::new(n as nat, |_i: int| 0u8)
}

/// Block `i` of a buffer cut into blocks of `bs` bytes.
pub open spec fn block_of(buf: Seq<u8>, bs: int, i: int) -> Seq<u8> {
    buf.subrange(i * bs, (i + 1) * bs)
}

/// The store after `bytes` were written at byte position `pos`, where they fit
/// inside the store.
pub open spec fn overwrite(store: Seq<u8>, pos: int, bytes: Seq<u8>) -> Seq<u8> {
    store.subrange(0, pos) + bytes + store.subrange(pos + bytes.len(), store.len() as int)
}

/// The store after the first `k` blocks of `buf` were written one after the
/// other, the first of them at block `begin`.
pub open spec fn write_blocks(store: Seq<u8>, bs: int, begin: int, buf: Seq<u8>, k: nat) -> Seq<u8>
    decreases k,
{
    if k == 0 {
        store
    } else {
        overwrite(
            write_blocks(store, bs, begin, buf, (k - 1) as nat),
            (begin + k - 1) * bs,
            block_of(buf, bs, k - 1),
        )
    }
}

/// The bytes of `count` blocks, the first of them block `begin`.
pub open spec fn read_blocks(store: Seq<u8>, bs: int, begin: int, count: int) -> Seq<u8> {
    store.subrange(begin * bs, (begin + count) * bs)
}

/// The store that creation leaves: `n` zero blocks written one after the other
/// into an emptied store.
pub open spec fn fresh_store(bs: int, n: nat) -> Seq<u8>
    decreases n,
{
    if n == 0 {
        Seq::empty()
    } else {
        fresh_store(bs, (n - 1) as nat) + zeros(bs)
    }
}

/// A block range that lies inside the device.
pub open spec fn range_in_device(g: Geometry, begin: int, count: int) -> bool {
    &&& begin >= 0
    &&& count > 0
    &&& begin + count <= g.block_count
}

proof fn lemma_block_bounds(begin: int, k: int, count: int, bs: int)
    requires
        begin >= 0,
        0 <= k <= count,
        bs > 0,
    ensures
        (begin + k) * bs == begin * bs + k * bs,
        (k + 1) * bs == k * bs + bs,
        0 <= k * bs <= count * bs,
        0 <= begin * bs,
{
    assert((begin + k) * bs == begin * bs + k * bs) by (nonlinear_arith);
    assert((k + 1) * bs == k * bs + bs) by (nonlinear_arith);
    assert(0 <= k * bs <= count * bs) by (nonlinear_arith)
        requires
            0 <= k <= count,
            bs > 0,
    ;
    assert(0 <= begin * bs) by (nonlinear_arith)
        requires
            begin >= 0,
            bs > 0,
    ;
}

/// Byte by byte, writing `k` blocks of `buf` from block `begin` replaces the
/// bytes of those blocks by `buf`'s and keeps every other byte.
proof fn lemma_write_blocks_bytes(store: Seq<u8>, bs: int, begin: int, buf: Seq<u8>, k: nat)
    requires
        bs > 0,
        begin >= 0,
        k * bs <= buf.len(),
        (begin + k) * bs <= store.len(),
    ensures
        write_blocks(store, bs, begin, buf, k).len() == store.len(),
        forall|j: int|
            0 <= j < store.len() ==> #[trigger] write_blocks(store, bs, begin, buf, k)[j] == (if begin
                * bs <= j < (begin + k) * bs {
                buf[j - begin * bs]
            } else {
                store[j]
            }),
    decreases k,
{
    lemma_block_bounds(begin, k as int, k as int, bs);
    if k > 0 {
        let k1 = (k - 1) as nat;
        lemma_block_bounds(begin, k1 as int, k as int, bs);
        lemma_write_blocks_bytes(store, bs, begin, buf, k1);
        let prev = write_blocks(store, bs, begin, buf, k1);
        let pos = (begin + k1) * bs;
        let blk = block_of(buf, bs, k1 as int);
        assert(blk.len() == bs);
        assert(write_blocks(store, bs, begin, buf, k) == overwrite(prev, pos, blk));
        assert forall|j: int| 0 <= j < store.len() implies #[trigger] write_blocks(
            store,
            bs,
            begin,
            buf,
            k,
        )[j] == (if begin * bs <= j < (begin + k) * bs {
            buf[j - begin * bs]
        } else {
            store[j]
        }) by {
            if pos <= j < pos + bs {
                assert(overwrite(prev, pos, blk)[j] == blk[j - pos]);
            } else if j < pos {
                assert(overwrite(prev, pos, blk)[j] == prev[j]);
            } else {
                assert(overwrite(prev, pos, blk)[j] == prev[j]);
            }
        }
    }
}

/// Writing a whole buffer of `count` blocks into a store of exactly that
/// length, from block 0, leaves the buffer itself.
pub proof fn lemma_placed_blocks_fill_buffer(dst: Seq<u8>, bs: int, src: Seq<u8>, count: nat)
    requires
        bs > 0,
        src.len() == count * bs,
        dst.len() == count * bs,
    ensures
        write_blocks(dst, bs, 0, src, count) == src,
{
    lemma_write_blocks_bytes(dst, bs, 0, src, count);
    assert(write_blocks(dst, bs, 0, src, count) =~= src);
}

/// A freshly created device reads as zero bytes over every range inside it,
/// and its store holds exactly `block_size * block_count` bytes.
pub proof fn lemma_fresh_device_reads_zero(g: Geometry, begin: int, count: int)
    requires
        g.wf(),
        range_in_device(g, begin, count),
    ensures
        fresh_store(g.block_size as int, g.block_count as nat).len() == g.store_len(),
        read_blocks(fresh_store(g.block_size as int, g.block_count as nat), g.block_size as int, begin, count)
            == zeros(count * g.block_size),
{
    let bs = g.block_size as int;
    let n = g.block_count as nat;
    lemma_fresh_store_zero(bs, n);
    lemma_block_bounds(begin, count, (begin + count), bs);
    lemma_block_bounds(0, begin + count, n as int, bs);
    let s = fresh_store(bs, n);
    assert(read_blocks(s, bs, begin, count) =~= zeros(count * bs));
}

proof fn lemma_fresh_store_zero(bs: int, n: nat)
    requires
        bs > 0,
    ensures
        fresh_store(bs, n).len() == n * bs,
        forall|j: int| 0 <= j < n * bs ==> #[trigger] fresh_store(bs, n)[j] == 0u8,
    decreases n,
{
    if n > 0 {
        lemma_fresh_store_zero(bs, (n - 1) as nat);
        assert(n * bs == (n - 1) * bs + bs) by (nonlinear_arith);
        let s = fresh_store(bs, n);
        assert forall|j: int| 0 <= j < n * bs implies #[trigger] s[j] == 0u8 by {
            if j < (n - 1) * bs {
                assert(s[j] == fresh_store(bs, (n - 1) as nat)[j]);
            } else {
                assert(s[j] == zeros(bs)[j - (n - 1) * bs]);
            }
        }
    }
}

/// Writing a buffer over a range inside the device and then reading the same
/// range gives the buffer back, block by block as well as at once; the store
/// keeps its length and every byte outside the range.
pub proof fn lemma_write_then_read(store: Seq<u8>, g: Geometry, begin: int, count: int, buf: Seq<u8>, dst: Seq<u8>)
    requires
        g.wf(),
        store.len() == g.store_len(),
        range_in_device(g, begin, count),
        buf.len() == count * g.block_size,
        dst.len() == count * g.block_size,
    ensures
        ({
            let bs = g.block_size as int;
            let after = write_blocks(store, bs, begin, buf, count as nat);
            &&& after.len() == store.len()
            &&& read_blocks(after, bs, begin, count) == buf
            &&& write_blocks(dst, bs, 0, read_blocks(after, bs, begin, count), count as nat) == buf
            &&& forall|j: int|
                0 <= j < store.len() && !(begin * bs <= j < (begin + count) * bs) ==> #[trigger] after[j]
                    == store[j]
        }),
{
    let bs = g.block_size as int;
    lemma_block_bounds(begin, count, count, bs);
    assert((begin + count) * bs <= bs * g.block_count) by (nonlinear_arith)
        requires
            begin + count <= g.block_count,
            bs > 0,
    ;
    lemma_write_blocks_bytes(store, bs, begin, buf, count as nat);
    let after = write_blocks(store, bs, begin, buf, count as nat);
    assert(read_blocks(after, bs, begin, count) =~= buf);
    lemma_placed_blocks_fill_buffer(dst, bs, buf, count as nat);
}

} // verus!

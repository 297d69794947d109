//! Validation of block-range requests and the block-by-block movement of bytes
//! through a staging buffer.
use vstd::prelude::*;

use crate::geometry::{DiskError, Geometry};
use crate::model::{block_of, overwrite, range_in_device, zeros};

verus! {

/// One accepted read or write request: `count` blocks from block `begin` on,
/// of which the first `done` have been moved so far.
pub struct Transfer {
    block_size: i64,
    begin: i64,
    count: i64,
    done: i64,
}

impl Transfer {
    /// Bytes per block of the device.
    pub closed spec fn block_size(&self) -> int {
        self.block_size as int
    }

    /// First block of the range.
    pub closed spec fn begin(&self) -> int {
        self.begin as int
    }

    /// Number of blocks of the range.
    pub closed spec fn count(&self) -> int {
        self.count as int
    }

    /// Number of blocks moved so far.
    pub closed spec fn done(&self) -> int {
        self.done as int
    }

    /// The range lies in a store addressable by a signed 64-bit offset, the
    /// caller's buffer fits in memory, and no more blocks were moved than asked.
    pub closed spec fn wf(&self) -> bool {
        &&& self.block_size > 0
        &&& self.begin >= 0
        &&& self.count > 0
        &&& (self.begin + self.count) * self.block_size <= i64::MAX
        &&& self.count * self.block_size <= usize::MAX
        &&& 0 <= self.done <= self.count
    }

    /// Byte offset of the first block of the range in the store.
    pub fn offset(&self) -> (r: i64)
        requires
            self.wf(),
        ensures
            r == self.begin() * self.block_size(),
    {
        proof {
            assert(0 <= self.begin * self.block_size <= (self.begin + self.count) * self.block_size)
                by (nonlinear_arith)
                requires
                    self.begin >= 0,
                    self.count > 0,
                    self.block_size > 0,
            ;
        }
        self.begin * self.block_size
    }

    /// Number of blocks moved so far; once the transfer is complete, the
    /// number of blocks of the request.
    pub fn blocks_done(&self) -> (r: i64)
        ensures
            r == self.done(),
    {
        self.done
    }

    /// Whether every block of the range has been moved.
    pub fn is_complete(&self) -> (r: bool)
        ensures
            r == (self.done() == self.count()),
    {
        self.done == self.count
    }

    /// A zeroed buffer of one block, to stage blocks in.
    pub fn staging_buffer(&self) -> (r: Vec<u8>)
        requires
            self.wf(),
        ensures
            r@ == zeros(self.block_size()),
    {
        proof {
            assert(self.block_size <= self.count * self.block_size) by (nonlinear_arith)
                requires
                    self.count > 0,
                    self.block_size > 0,
            ;
        }
        zeroed(self.block_size as usize)
    }

    /// Write path: copies the next block of the caller's buffer `src` into
    /// `staging`, from which it goes to the store, and counts it as moved.
    pub fn stage_next(&mut self, src: &[u8], staging: &mut [u8])
        requires
            old(self).wf(),
            old(self).done() < old(self).count(),
            src@.len() == old(self).count() * old(self).block_size(),
            old(staging)@.len() == old(self).block_size(),
        ensures
            final(self).wf(),
            final(self).block_size() == old(self).block_size(),
            final(self).begin() == old(self).begin(),
            final(self).count() == old(self).count(),
            final(self).done() == old(self).done() + 1,
            final(staging)@ == block_of(src@, old(self).block_size(), old(self).done()),
    {
        proof {
            self.lemma_block_in_buffer();
        }
        let bs = self.block_size as usize;
        let start = (self.done as usize) * bs;
        let mut i: usize = 0;
        while i < bs
            invariant
                bs == self.block_size,
                start == self.done * self.block_size,
                start + bs <= usize::MAX,
                start + bs <= src@.len(),
                staging@.len() == bs,
                0 <= i <= bs,
                forall|j: int| 0 <= j < i ==> #[trigger] staging@[j] == src@[start + j],
            decreases bs - i,
        {
            staging[i] = src[start + i];
            i = i + 1;
        }
        proof {
            assert((self.done + 1) * self.block_size == start + bs) by (nonlinear_arith)
                requires
                    start == self.done * self.block_size,
                start + bs <= usize::MAX,
                    bs == self.block_size,
            ;
            assert(staging@ =~= block_of(src@, self.block_size as int, self.done as int));
        }
        self.done = self.done + 1;
    }

    /// Read path: copies the block just read from the store, held in
    /// `staging`, into its place in the caller's buffer `dst`, and counts it
    /// as moved.
    pub fn place_next(&mut self, staging: &[u8], dst: &mut [u8])
        requires
            old(self).wf(),
            old(self).done() < old(self).count(),
            old(dst)@.len() == old(self).count() * old(self).block_size(),
            staging@.len() == old(self).block_size(),
        ensures
            final(self).wf(),
            final(self).block_size() == old(self).block_size(),
            final(self).begin() == old(self).begin(),
            final(self).count() == old(self).count(),
            final(self).done() == old(self).done() + 1,
            final(dst)@ == overwrite(old(dst)@, old(self).done() * old(self).block_size(), staging@),
    {
        proof {
            self.lemma_block_in_buffer();
        }
        let bs = self.block_size as usize;
        let start = (self.done as usize) * bs;
        let mut i: usize = 0;
        while i < bs
            invariant
                bs == self.block_size,
                start == self.done * self.block_size,
                start + bs <= usize::MAX,
                start + bs <= dst@.len(),
                dst@.len() == old(dst)@.len(),
                staging@.len() == bs,
                0 <= i <= bs,
                forall|j: int|
                    0 <= j < dst@.len() ==> #[trigger] dst@[j] == (if start <= j < start + i {
                        staging@[j - start]
                    } else {
                        old(dst)@[j]
                    }),
            decreases bs - i,
        {
            dst[start + i] = staging[i];
            i = i + 1;
        }
        proof {
            assert(dst@ =~= overwrite(old(dst)@, start as int, staging@));
        }
        self.done = self.done + 1;
    }

    /// The block about to be moved lies inside the caller's buffer.
    proof fn lemma_block_in_buffer(&self)
        requires
            self.wf(),
            self.done < self.count,
        ensures
            self.block_size <= usize::MAX,
            self.done <= usize::MAX,
            self.done * self.block_size + self.block_size <= self.count * self.block_size,
            0 <= self.done * self.block_size,
    {
        assert(self.block_size <= self.count * self.block_size && self.count <= self.count
            * self.block_size) by (nonlinear_arith)
            requires
                self.count > 0,
                self.block_size > 0,
        ;
        assert(self.done * self.block_size + self.block_size <= self.count * self.block_size)
            by (nonlinear_arith)
            requires
                self.done < self.count,
                self.block_size > 0,
        ;
        assert(0 <= self.done * self.block_size) by (nonlinear_arith)
            requires
                self.done >= 0,
                self.block_size > 0,
        ;
    }
}

/// A buffer of `n` zero bytes.
fn zeroed(n: usize) -> (r: Vec<u8>)
    ensures
        r@ == zeros(n as int),
{
    let mut v: Vec<u8> = Vec::with_capacity(n);
    let mut i: usize = 0;
    while i < n
        invariant
            0 <= i <= n,
            v@ == zeros(i as int),
        decreases n - i,
    {
        v.push(0u8);
        i = i + 1;
        proof {
            assert(v@ =~= zeros(i as int));
        }
    }
    v
}

/// One zeroed block of the device: what creation writes `block_count` times.
pub fn zero_block(g: &Geometry) -> (r: Vec<u8>)
    requires
        g.wf(),
    ensures
        r@ == zeros(g.block_size as int),
{
    zeroed(g.block_size as usize)
}

/// Validates a read or write request of `count` blocks from block `begin` on,
/// with a caller's buffer of `buf_len` bytes. Arguments are checked first,
/// then the range against the device, then the buffer's length; nothing has
/// touched the store when a request is refused.
pub fn check_transfer(g: &Geometry, begin: i64, count: i64, buf_len: usize) -> (r: Result<Transfer, DiskError>)
    requires
        g.wf(),
    ensures
        (begin < 0 || count <= 0) ==> r == Err::<Transfer, DiskError>(DiskError::InvalidArgument),
        (begin >= 0 && count > 0 && begin + count > g.block_count) ==> r == Err::<Transfer, DiskError>(
            DiskError::OutOfRange,
        ),
        (range_in_device(*g, begin as int, count as int) && buf_len != count * g.block_size) ==> r
            == Err::<Transfer, DiskError>(DiskError::InvalidArgument),
        (range_in_device(*g, begin as int, count as int) && buf_len == count * g.block_size) ==> (
        match r {
            Ok(t) => {
                &&& t.wf()
                &&& t.block_size() == g.block_size
                &&& t.begin() == begin
                &&& t.count() == count
                &&& t.done() == 0
            },
            Err(_) => false,
        }),
{
    if begin < 0 || count <= 0 {
        return Err(DiskError::InvalidArgument);
    }
    if begin > g.block_count - count {
        return Err(DiskError::OutOfRange);
    }
    proof {
        assert(count * g.block_size <= (begin + count) * g.block_size <= g.block_count * g.block_size)
            by (nonlinear_arith)
            requires
                begin >= 0,
                count > 0,
                begin + count <= g.block_count,
                g.block_size > 0,
        ;
        assert(g.block_count * g.block_size == g.block_size * g.block_count) by (nonlinear_arith);
    }
    let bytes: i64 = count * g.block_size;
    if buf_len as u64 != bytes as u64 {
        return Err(DiskError::InvalidArgument);
    }
    Ok(Transfer { block_size: g.block_size, begin, count, done: 0 })
}

/// What closing a handle amounts to.
#[derive(Clone, Copy, Debug, PartialEq, Eq, Structural)]
pub enum CloseStep {
    /// The handle denotes no open device: nothing is released.
    NothingToClose,
    /// The backing resource is to be released.
    Release,
}

impl CloseStep {
    /// The status reported for this step once it is carried out.
    pub fn status(&self) -> (r: i64)
        ensures
            *self == CloseStep::NothingToClose ==> r == -1,
            *self == CloseStep::Release ==> r == 0,
    {
        match self {
            CloseStep::NothingToClose => -1,
            CloseStep::Release => 0,
        }
    }
}

/// Decides the close of a handle that may or may not denote an open device.
pub fn close_step(has_device: bool) -> (r: CloseStep)
    ensures
        has_device ==> r == CloseStep::Release,
        !has_device ==> r == CloseStep::NothingToClose,
{
    if has_device {
        CloseStep::Release
    } else {
        CloseStep::NothingToClose
    }
}

/// The single status value of the call table: the count itself on success,
/// `-1` for every refusal.
pub fn status_code(r: Result<i64, DiskError>) -> (c: i64)
    ensures
        match r {
            Ok(n) => c == n,
            Err(_) => c == -1,
        },
{
    match r {
        Ok(n) => n,
        Err(_) => -1,
    }
}

} // verus!

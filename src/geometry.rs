use vstd::prelude::*;

verus! {

/// Why a request to the block device was refused.
#[derive(Clone, Copy, Debug, PartialEq, Eq, Structural)]
pub enum DiskError {
    /// A malformed argument: a non-positive size or count, an empty location,
    /// a negative first block, or a buffer whose length does not match the range.
    InvalidArgument,
    /// The requested range runs past the last block of the device.
    OutOfRange,
    /// The backing store could not be opened, created or positioned.
    IoFailure,
}

/// The fixed shape of one device: bytes per block and number of blocks.
#[derive(Clone, Copy, Debug, PartialEq, Eq, Structural)]
pub struct Geometry {
    pub block_size: i64,
    pub block_count: i64,
}

/// The conditions under which a device may be created or opened.
pub open spec fn acceptable(location: Seq<u8>, block_size: int, block_count: int) -> bool {
    &&& location.len() > 0
    &&& block_size > 0
    &&& block_count > 0
    &&& block_size * block_count <= i64::MAX
    &&& block_size <= usize::MAX
}

impl Geometry {
    /// Both dimensions are positive, the whole store can be addressed by a
    /// signed 64-bit byte offset, and one block fits in a buffer in memory.
    pub open spec fn wf(&self) -> bool {
        &&& self.block_size > 0
        &&& self.block_count > 0
        &&& self.block_size * self.block_count <= i64::MAX
        &&& self.block_size <= usize::MAX
    }

    /// Total length of the backing store in bytes.
    pub open spec fn store_len(&self) -> int {
        self.block_size * self.block_count
    }

    /// Validates a declared geometry on its own: the shape that every read
    /// and write request of a device is checked against.
    pub fn from_dims(block_size: i64, block_count: i64) -> (r: Result<Geometry, DiskError>)
        ensures
            match r {
                Ok(g) => {
                    &&& g.block_size == block_size
                    &&& g.block_count == block_count
                    &&& g.wf()
                },
                Err(e) => {
                    &&& !(Geometry { block_size, block_count }).wf()
                    &&& e == DiskError::InvalidArgument
                },
            },
    {
        if block_size <= 0 || block_count <= 0 {
            return Err(DiskError::InvalidArgument);
        }
        if block_size as u64 > usize::MAX as u64 {
            return Err(DiskError::InvalidArgument);
        }
        match block_size.checked_mul(block_count) {
            Some(_) => Ok(Geometry { block_size, block_count }),
            None => Err(DiskError::InvalidArgument),
        }
    }

    /// Validates the arguments of a create or open request. The geometry is
    /// taken as declared: nothing here looks at the store itself.
    pub fn new(location: &[u8], block_size: i64, block_count: i64) -> (r: Result<Geometry, DiskError>)
        ensures
            match r {
                Ok(g) => {
                    &&& acceptable(location@, block_size as int, block_count as int)
                    &&& g.block_size == block_size
                    &&& g.block_count == block_count
                    &&& g.wf()
                },
                Err(e) => {
                    &&& !acceptable(location@, block_size as int, block_count as int)
                    &&& e == DiskError::InvalidArgument
                },
            },
    {
        if location.len() == 0 {
            return Err(DiskError::InvalidArgument);
        }
        Geometry::from_dims(block_size, block_count)
    }

    /// Total length of the backing store in bytes.
    pub fn byte_len(&self) -> (r: i64)
        requires
            self.wf(),
        ensures
            r == self.store_len(),
    {
        self.block_size * self.block_count
    }
}

} // verus!

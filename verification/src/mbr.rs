//! Partition metadata: the 16-byte MBR partition entry and a view of a
//! device restricted to one partition.

use vstd::prelude::*;
use crate::block::{Block, BlockDevice, FsError};

verus! {

/// One partition entry of the master boot record.
#[derive(Clone, Copy)]
pub struct MbrPartition {
    /// The entry's 16 bytes.
    pub data: [u8; 16],
}

impl MbrPartition {
    /// Wrap a partition entry's bytes.
    pub fn parse(data: &[u8; 16]) -> (r: MbrPartition)
        ensures
            r.data@ == data@,
    {
        MbrPartition { data: *data }
    }

    /// The status byte.
    pub fn status(&self) -> (r: u8)
        ensures
            r == self.data@[0],
    {
        self.data[0]
    }

    /// Whether the partition is marked active (bootable).
    pub fn is_active(&self) -> (r: bool)
        ensures
            r == (self.data@[0] == 0x80),
    {
        self.status() == 0x80
    }

    /// The head the partition begins at.
    pub fn begin_head(&self) -> (r: u8)
        ensures
            r == self.data@[1],
    {
        self.data[1]
    }

    /// The sector the partition begins at: the low six bits of the
    /// packed sector/cylinder pair.
    pub fn begin_sector(&self) -> (r: u16)
        ensures
            r == (self.data@[2] & 0x3F) as u16,
    {
        (self.data[2] & 0x3F) as u16
    }

    /// The cylinder the partition begins at: the pair's high two bits
    /// above the cylinder byte.
    pub fn begin_cylinder(&self) -> (r: u16)
        ensures
            r == ((self.data@[2] & 0xC0) as u16) << 2 | (self.data@[3] as u16),
    {
        ((self.data[2] & 0xC0) as u16) << 2 | (self.data[3] as u16)
    }

    /// The partition type byte.
    pub fn partition_type(&self) -> (r: u8)
        ensures
            r == self.data@[4],
    {
        self.data[4]
    }

    /// The head the partition ends at.
    pub fn end_head(&self) -> (r: u8)
        ensures
            r == self.data@[5],
    {
        self.data[5]
    }

    /// The sector the partition ends at.
    pub fn end_sector(&self) -> (r: u16)
        ensures
            r == (self.data@[6] & 0x3F) as u16,
    {
        (self.data[6] & 0x3F) as u16
    }

    /// The cylinder the partition ends at.
    pub fn end_cylinder(&self) -> (r: u16)
        ensures
            r == ((self.data@[6] & 0xC0) as u16) << 2 | (self.data@[7] as u16),
    {
        ((self.data[6] & 0xC0) as u16) << 2 | (self.data[7] as u16)
    }

    /// The first logical block of the partition, little endian.
    pub fn begin_lba(&self) -> (r: u32)
        ensures
            r == u32_le(self.data@[8], self.data@[9], self.data@[10], self.data@[11]),
    {
        u32_from_le(self.data[8], self.data[9], self.data[10], self.data[11])
    }

    /// How many logical blocks the partition holds, little endian.
    pub fn total_lba(&self) -> (r: u32)
        ensures
            r == u32_le(self.data@[12], self.data@[13], self.data@[14], self.data@[15]),
    {
        u32_from_le(self.data[12], self.data[13], self.data[14], self.data[15])
    }
}

/// The unsigned 32-bit value four little-endian bytes spell.
pub open spec fn u32_le(b0: u8, b1: u8, b2: u8, b3: u8) -> u32 {
    (b0 + b1 * 0x100 + b2 * 0x10000 + b3 * 0x1000000) as u32
}

/// The unsigned 32-bit value four little-endian bytes spell.
#[verifier::when_used_as_spec(u32_le)]
pub fn u32_from_le(b0: u8, b1: u8, b2: u8, b3: u8) -> (r: u32)
    ensures
        r == u32_le(b0, b1, b2, b3),
{
    (b0 as u32) + (b1 as u32) * 0x100 + (b2 as u32) * 0x10000 + (b3 as u32) * 0x1000000
}

/// The unsigned 16-bit value two little-endian bytes spell.
pub open spec fn u16_le(b0: u8, b1: u8) -> u16 {
    (b0 + b1 * 0x100) as u16
}

/// The unsigned 16-bit value two little-endian bytes spell.
#[verifier::when_used_as_spec(u16_le)]
pub fn u16_from_le(b0: u8, b1: u8) -> (r: u16)
    ensures
        r == u16_le(b0, b1),
{
    (b0 as u16) + (b1 as u16) * 0x100
}

/// A partition table: how a whole-disk structure yields partitions.
pub trait PartitionTable<T: BlockDevice>: Sized {
    /// Parse the table from the device.
    fn parse(inner: T) -> Result<Self, FsError>;

    /// The partitions the table describes.
    fn partition_entries(&self) -> Result<Vec<MbrPartition>, FsError>;
}

/// A device restricted to `size` blocks starting `offset` blocks into
/// another device.
pub struct Partition<T: BlockDevice> {
    /// The underlying device.
    pub inner: T,
    /// Where the partition begins, in blocks.
    pub offset: usize,
    /// How many blocks the partition holds.
    pub size: usize,
}

impl<T: BlockDevice> Partition<T> {
    /// A view of `inner` restricted to `[offset, offset + size)`.
    pub fn new(inner: T, offset: usize, size: usize) -> (r: Partition<T>)
        ensures
            r.inner == inner,
            r.offset == offset,
            r.size == size,
    {
        Partition { inner, offset, size }
    }
}

impl<T: BlockDevice> BlockDevice for Partition<T> {
    open spec fn block_data(&self, offset: int) -> Seq<u8> {
        self.inner.block_data(offset + self.offset)
    }

    open spec fn block_valid(&self, offset: int) -> bool {
        0 <= offset < self.size && offset + self.offset <= usize::MAX && self.inner.block_valid(
            offset + self.offset,
        )
    }

    fn block_count(&self) -> (r: Result<usize, FsError>) {
        Ok(self.size)
    }

    fn read_block(&self, offset: usize, block: &mut Block) -> (r: Result<(), FsError>) {
        if offset >= self.size || offset > usize::MAX - self.offset {
            return Err(FsError::InvalidOffset);
        }
        self.inner.read_block(offset + self.offset, block)
    }

    fn write_block(&mut self, offset: usize, block: &Block) -> (r: Result<(), FsError>) {
        if offset >= self.size || offset > usize::MAX - self.offset {
            return Err(FsError::InvalidOffset);
        }
        let r = self.inner.write_block(offset + self.offset, block);
        proof {
            assert forall|o: int|
                o != offset implies ((self.block_valid(o) <==> old(self).block_valid(o)) && (old(
                self,
            ).block_valid(o) ==> self.block_data(o) == old(self).block_data(o))) by {
                assert(o + self.offset != offset + self.offset);
            }
        }
        r
    }
}

} // verus!

//! Block devices: the fixed 512-byte block, the device interface the
//! storage stack is written against, and a memory-backed device.

use vstd::prelude::*;

verus! {

/// Bytes per block.
pub const BLOCK_SIZE: usize = 512;

/// Why a storage operation failed.
#[derive(Clone, Copy, Debug, PartialEq, Eq, Structural)]
pub enum FsError {
    /// A block offset outside the device or partition.
    InvalidOffset,
    /// A malformed structure or unsupported request.
    InvalidOperation,
    /// The FAT marks the cluster bad.
    BadCluster,
    /// No entry under the name.
    FileNotFound,
    /// The name was not in the searched sector.
    NotInSector,
    /// A path component that is not a directory.
    NotADirectory,
    /// An open of something that is not a file.
    NotAFile,
    /// An empty file name.
    FilenameEmpty,
    /// A name or extension over the 8.3 bounds.
    NameTooLong,
    /// A period in a position 8.3 cannot hold.
    MisplacedPeriod,
    /// A character 8.3 forbids.
    InvalidCharacter,
    /// The volume's boot record is not FAT16.
    BadBootRecord,
}

/// One 512-byte block.
pub struct Block {
    /// The block's bytes.
    pub data: Vec<u8>,
}

impl Block {
    /// A block is well formed when it holds exactly one block's bytes.
    pub open spec fn wf(self) -> bool {
        self.data@.len() == BLOCK_SIZE
    }

    /// An all-zero block.
    pub fn new() -> (r: Block)
        ensures
            r.wf(),
            forall|i: int| 0 <= i < BLOCK_SIZE ==> r.data@[i] == 0,
    {
        let mut data: Vec<u8> = Vec::new();
        let mut i: usize = 0;
        while i < BLOCK_SIZE
            invariant
                i <= BLOCK_SIZE,
                data@.len() == i,
                forall|j: int| 0 <= j < i ==> data@[j] == 0,
            decreases BLOCK_SIZE - i,
        {
            data.push(0);
            i = i + 1;
        }
        Block { data }
    }
}

/// A device of 512-byte blocks.  `block_data` names what each block
/// holds, so that reads have meaning; an implementation defines it.
pub trait BlockDevice: Sized {
    /// What the block at `offset` holds.
    spec fn block_data(&self, offset: int) -> Seq<u8>;

    /// Which offsets the device can read.
    spec fn block_valid(&self, offset: int) -> bool;

    /// How many blocks the device holds.
    fn block_count(&self) -> (r: Result<usize, FsError>);

    /// Read the block at `offset` into `block`.
    fn read_block(&self, offset: usize, block: &mut Block) -> (r: Result<(), FsError>)
        requires
            old(block).wf(),
        ensures
            final(block).wf(),
            r is Ok ==> self.block_valid(offset as int) && final(block).data@ == self.block_data(
                offset as int,
            ),
            r is Err ==> !self.block_valid(offset as int),
    ;

    /// Write `block` to the block at `offset`.
    fn write_block(&mut self, offset: usize, block: &Block) -> (r: Result<(), FsError>)
        requires
            block.wf(),
        ensures
            r is Ok ==> final(self).block_valid(offset as int) && final(self).block_data(
                offset as int,
            ) == block.data@,
            forall|o: int|
                o != offset ==> ((final(self).block_valid(o) <==> old(self).block_valid(o)) && (
                old(self).block_valid(o) ==> final(self).block_data(o) == old(self).block_data(
                    o,
                ))),
    ;
}

/// A memory-backed block device: what a loaded disk image gives the
/// storage stack.
pub struct RamDisk {
    /// The blocks, in order.
    pub blocks: Vec<Block>,
}

impl RamDisk {
    /// Every block holds exactly one block's bytes.
    pub open spec fn wf(self) -> bool {
        forall|i: int| 0 <= i < self.blocks@.len() ==> (#[trigger] self.blocks@[i]).wf()
    }

    /// A device over the given blocks.
    pub fn new(blocks: Vec<Block>) -> (r: RamDisk)
        requires
            forall|i: int| 0 <= i < blocks@.len() ==> (#[trigger] blocks@[i]).wf(),
        ensures
            r.blocks == blocks,
            r.wf(),
    {
        RamDisk { blocks }
    }
}

impl BlockDevice for RamDisk {
    open spec fn block_data(&self, offset: int) -> Seq<u8> {
        self.blocks@[offset].data@
    }

    open spec fn block_valid(&self, offset: int) -> bool {
        0 <= offset < self.blocks@.len() && self.blocks@[offset].wf()
    }

    fn block_count(&self) -> (r: Result<usize, FsError>)
        ensures
            r == Ok::<usize, FsError>(self.blocks@.len() as usize),
    {
        Ok(self.blocks.len())
    }

    fn read_block(&self, offset: usize, block: &mut Block) -> (r: Result<(), FsError>) {
        if offset >= self.blocks.len() {
            return Err(FsError::InvalidOffset);
        }
        let src = &self.blocks[offset];
        if src.data.len() != BLOCK_SIZE {
            // A malformed image block is unreadable.
            return Err(FsError::InvalidOffset);
        }
        let mut data: Vec<u8> = Vec::new();
        let mut i: usize = 0;
        while i < src.data.len()
            invariant
                i <= src.data@.len(),
                data@ == src.data@.subrange(0, i as int),
            decreases src.data@.len() - i,
        {
            data.push(src.data[i]);
            i = i + 1;
        }
        proof {
            assert(data@ =~= src.data@);
        }
        block.data = data;
        Ok(())
    }

    fn write_block(&mut self, offset: usize, block: &Block) -> (r: Result<(), FsError>) {
        if offset >= self.blocks.len() {
            return Err(FsError::InvalidOffset);
        }
        let mut data: Vec<u8> = Vec::new();
        let mut i: usize = 0;
        while i < block.data.len()
            invariant
                i <= block.data@.len(),
                data@ == block.data@.subrange(0, i as int),
            decreases block.data@.len() - i,
        {
            data.push(block.data[i]);
            i = i + 1;
        }
        proof {
            assert(data@ =~= block.data@);
        }
        self.blocks.set(offset, Block { data });
        Ok(())
    }
}

} // verus!

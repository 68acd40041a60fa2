//! The FAT16 volume: the BIOS parameter block, cluster-chain walking,
//! directory search, and sequential file reading.

use vstd::prelude::*;
use crate::block::{Block, BlockDevice, FsError, BLOCK_SIZE};
use crate::mbr::{u16_le, u16_from_le};
use crate::direntry::{
    DirEntry,
    ShortFileName,
    Cluster,
    Metadata,
    CLUSTER_ROOT_DIR,
    CLUSTER_EMPTY,
    CLUSTER_INVALID,
    CLUSTER_END_OF_FILE,
    DIR_ENTRY_LEN,
};

verus! {

/// Walking a cluster chain stops after this many steps: FAT16 cannot
/// name more clusters, so a longer chain is corrupt.
pub const MAX_CLUSTERS: usize = 0x10000;

/// The fields of the BIOS parameter block the volume logic reads.
#[derive(Clone, Copy, Debug, PartialEq, Eq, Structural)]
pub struct Fat16Bpb {
    /// Bytes per sector.
    pub bytes_per_sector: u16,
    /// Sectors per cluster.
    pub sectors_per_cluster: u8,
    /// Sectors before the first file-allocation table.
    pub reserved_sector_count: u16,
    /// How many copies of the table the volume holds.
    pub fat_count: u8,
    /// How many entries the root directory holds.
    pub root_entries_count: u16,
    /// Sectors per file-allocation table.
    pub sectors_per_fat: u16,
}

impl Fat16Bpb {
    /// The volume logic needs sane geometry.
    pub open spec fn wf(self) -> bool {
        &&& self.bytes_per_sector == 512
        &&& 1 <= self.sectors_per_cluster <= 128
        &&& self.fat_count >= 1
    }

    /// Parse the parameter block from the volume's first sector.
    pub fn new(data: &Block) -> (r: Result<Fat16Bpb, FsError>)
        requires
            data.wf(),
        ensures
            r matches Ok(b) ==> {
                &&& b.wf()
                &&& b.bytes_per_sector == u16_le(data.data@[11], data.data@[12])
                &&& b.sectors_per_cluster == data.data@[13]
                &&& b.reserved_sector_count == u16_le(data.data@[14], data.data@[15])
                &&& b.fat_count == data.data@[16]
                &&& b.root_entries_count == u16_le(data.data@[17], data.data@[18])
                &&& b.sectors_per_fat == u16_le(data.data@[22], data.data@[23])
            },
    {
        let bpb = Fat16Bpb {
            bytes_per_sector: u16_from_le(data.data[11], data.data[12]),
            sectors_per_cluster: data.data[13],
            reserved_sector_count: u16_from_le(data.data[14], data.data[15]),
            fat_count: data.data[16],
            root_entries_count: u16_from_le(data.data[17], data.data[18]),
            sectors_per_fat: u16_from_le(data.data[22], data.data[23]),
        };
        if bpb.bytes_per_sector != 512 || bpb.sectors_per_cluster == 0
            || bpb.sectors_per_cluster > 128 || bpb.fat_count == 0 {
            return Err(FsError::BadBootRecord);
        }
        Ok(bpb)
    }
}

/// A directory: where its entries live.
#[derive(Clone, Copy, Debug, PartialEq, Eq, Structural)]
pub struct Directory {
    /// The directory's first cluster, or the root sentinel.
    pub cluster: Cluster,
}

impl Directory {
    /// The root directory.
    pub fn root() -> (r: Directory)
        ensures
            r.cluster == Cluster(CLUSTER_ROOT_DIR),
    {
        Directory { cluster: Cluster(CLUSTER_ROOT_DIR) }
    }

    /// The directory an entry names.
    pub fn from_entry(entry: &DirEntry) -> (r: Directory)
        ensures
            r.cluster == entry.cluster,
    {
        Directory { cluster: entry.cluster }
    }
}

/// A FAT16 volume over a block device.
pub struct Fat16Impl<T: BlockDevice> {
    /// The volume's geometry.
    pub bpb: Fat16Bpb,
    /// The device the volume lives on.
    pub inner: T,
    /// First sector of the file-allocation table.
    pub fat_start: usize,
    /// First sector of file data.
    pub first_data_sector: usize,
    /// First sector of the root directory.
    pub first_root_dir_sector: usize,
}

impl<T: BlockDevice> Fat16Impl<T> {
    /// The derived sector layout is consistent with the geometry.
    pub open spec fn wf(self) -> bool {
        &&& self.bpb.wf()
        &&& self.first_root_dir_sector == self.fat_start + self.bpb.fat_count
            * self.bpb.sectors_per_fat
        &&& self.first_data_sector == self.first_root_dir_sector + (
        self.bpb.root_entries_count as int) * 32 / (BLOCK_SIZE as int)
        &&& self.first_data_sector <= 0x10000000
    }

    /// Mount a volume: read its first sector and derive the layout.
    pub fn new(inner: T) -> (r: Result<Fat16Impl<T>, FsError>)
        ensures
            r matches Ok(fs) ==> fs.wf(),
    {
        let mut block = Block::new();
        match inner.read_block(0, &mut block) {
            Ok(()) => {},
            Err(e) => {
                return Err(e);
            },
        }
        let bpb = match Fat16Bpb::new(&block) {
            Ok(b) => b,
            Err(e) => {
                return Err(e);
            },
        };
        let fat_start = bpb.reserved_sector_count as usize;
        let root_dir_size = bpb.root_entries_count as usize * 32 / BLOCK_SIZE;
        proof {
            assert((bpb.fat_count as int) * (bpb.sectors_per_fat as int) <= 255 * 65535)
                by (nonlinear_arith)
                requires
                    bpb.fat_count <= 255 && bpb.sectors_per_fat <= 65535,
            ;
        }
        let first_root_dir_sector = fat_start + (bpb.fat_count as usize) * (bpb.sectors_per_fat
            as usize);
        let first_data_sector = first_root_dir_sector + root_dir_size;
        Ok(Fat16Impl { bpb, inner, fat_start, first_data_sector, first_root_dir_sector })
    }

    /// The first sector of a cluster.  The root sentinel names the root
    /// directory area; a data cluster counts from two.
    pub fn cluster_to_sector(&self, cluster: &Cluster) -> (r: usize)
        requires
            self.wf(),
            cluster.0 == CLUSTER_ROOT_DIR || (2 <= cluster.0 <= 0xFFFF),
        ensures
            cluster.0 == CLUSTER_ROOT_DIR ==> r == self.first_root_dir_sector,
            2 <= cluster.0 <= 0xFFFF ==> r == (cluster.0 - 2) * self.bpb.sectors_per_cluster
                + self.first_data_sector,
            r <= 0x10000000 + 0xFFFD * 128,
    {
        if cluster.0 == CLUSTER_ROOT_DIR {
            self.first_root_dir_sector
        } else {
            proof {
                assert((cluster.0 - 2) * self.bpb.sectors_per_cluster <= 0xFFFD * 128)
                    by (nonlinear_arith)
                    requires
                        2 <= cluster.0 <= 0xFFFF && 1 <= self.bpb.sectors_per_cluster <= 128,
                ;
            }
            ((cluster.0 - 2) as usize) * (self.bpb.sectors_per_cluster as usize)
                + self.first_data_sector
        }
    }

    /// Look the next cluster of a chain up in the file-allocation table.
    pub fn get_next_cluster(&self, cluster: &Cluster) -> (r: Result<Cluster, FsError>)
        requires
            self.wf(),
            cluster.0 == CLUSTER_ROOT_DIR || cluster.0 <= 0xFFFF,
        ensures
            cluster.0 == CLUSTER_ROOT_DIR ==> r == Ok::<Cluster, FsError>(
                Cluster(CLUSTER_END_OF_FILE),
            ),
            r matches Ok(c) ==> c.0 == CLUSTER_ROOT_DIR || c.0 == CLUSTER_EMPTY || c.0
                == CLUSTER_END_OF_FILE || c.0 == CLUSTER_INVALID || (2 <= c.0 < 0xFFF6),
    {
        if cluster.0 == CLUSTER_ROOT_DIR {
            return Ok(Cluster(CLUSTER_END_OF_FILE));
        }
        let fat_offset = (cluster.0 as usize) * 2;
        let sector = self.fat_start + fat_offset / BLOCK_SIZE;
        let offset_in_sector = fat_offset % BLOCK_SIZE;
        let mut block = Block::new();
        match self.inner.read_block(sector, &mut block) {
            Ok(()) => {},
            Err(e) => {
                return Err(e);
            },
        }
        proof {
            assert(offset_in_sector + 2 <= 512) by (nonlinear_arith)
                requires
                    offset_in_sector == ((cluster.0 as int) * 2) % 512int && cluster.0 <= 0xFFFF,
            ;
        }
        let next = u16_from_le(block.data[offset_in_sector], block.data[offset_in_sector + 1])
            as u32;
        if next == CLUSTER_EMPTY {
            Ok(Cluster(CLUSTER_EMPTY))
        } else if next == 0xFFF7 {
            Err(FsError::BadCluster)
        } else if 0x0002 <= next && next < 0xFFF6 {
            Ok(Cluster(next))
        } else if next >= 0xFFF8 {
            Ok(Cluster(CLUSTER_END_OF_FILE))
        } else {
            Ok(Cluster(CLUSTER_INVALID))
        }
    }

    /// How many sectors of the cluster hold directory entries.
    fn dir_sectors_of(&self, cluster: &Cluster) -> (r: usize)
        requires
            self.wf(),
        ensures
            r <= 0x10000000,
    {
        if cluster.0 == CLUSTER_ROOT_DIR {
            ((self.bpb.root_entries_count as usize) * DIR_ENTRY_LEN + BLOCK_SIZE - 1) / BLOCK_SIZE
        } else {
            self.bpb.sectors_per_cluster as usize
        }
    }

    /// Collect the listing of a directory, following its cluster chain;
    /// long-name continuations are skipped, and the end-of-directory
    /// marker stops the walk.
    pub fn traverse_cluster_chain(&self, dir: &Directory) -> (r: Result<Vec<Metadata>, FsError>)
        requires
            self.wf(),
            dir.cluster.0 == CLUSTER_ROOT_DIR || (2 <= dir.cluster.0 <= 0xFFFF),
    {
        let mut entries: Vec<Metadata> = Vec::new();
        let mut current = Cluster(dir.cluster.0);
        let mut steps: usize = 0;
        while steps < MAX_CLUSTERS
            invariant
                self.wf(),
                current.0 == CLUSTER_ROOT_DIR || (2 <= current.0 <= 0xFFFF),
            decreases MAX_CLUSTERS - steps,
        {
            let sectors = self.dir_sectors_of(&current);
            let first = self.cluster_to_sector(&current);
            let mut s: usize = 0;
            while s < sectors
                invariant
                    self.wf(),
                    sectors <= 0x10000000,
                    first <= 0x10000000 + 0xFFFD * 128,
                    s <= sectors,
                decreases sectors - s,
            {
                let mut block = Block::new();
                match self.inner.read_block(first + s, &mut block) {
                    Ok(()) => {},
                    Err(e) => {
                        return Err(e);
                    },
                }
                let mut e: usize = 0;
                while e < BLOCK_SIZE / DIR_ENTRY_LEN
                    invariant
                        block.wf(),
                        e <= BLOCK_SIZE / DIR_ENTRY_LEN,
                    decreases BLOCK_SIZE / DIR_ENTRY_LEN - e,
                {
                    let mut piece: Vec<u8> = Vec::new();
                    let mut i: usize = 0;
                    while i < DIR_ENTRY_LEN
                        invariant
                            block.wf(),
                            e < BLOCK_SIZE / DIR_ENTRY_LEN,
                            i <= DIR_ENTRY_LEN,
                            piece@.len() == i,
                        decreases DIR_ENTRY_LEN - i,
                    {
                        piece.push(block.data[e * DIR_ENTRY_LEN + i]);
                        i = i + 1;
                    }
                    match DirEntry::parse(piece.as_slice()) {
                        Ok(entry) => {
                            if entry.filename.is_eod() {
                                return Ok(entries);
                            }
                            if !entry.is_long_name() {
                                entries.push(entry.as_meta());
                            }
                        },
                        Err(_) => {},
                    }
                    e = e + 1;
                }
                s = s + 1;
            }
            if current.0 == CLUSTER_ROOT_DIR {
                break ;
            }
            match self.get_next_cluster(&current) {
                Ok(next) => {
                    if next.0 == CLUSTER_END_OF_FILE {
                        break ;
                    }
                    if !(2 <= next.0 && next.0 <= 0xFFFF) {
                        return Err(FsError::BadCluster);
                    }
                    current = next;
                },
                Err(e) => {
                    return Err(e);
                },
            }
            steps = steps + 1;
        }
        Ok(entries)
    }

    /// Search one sector for an entry under the name.  The answer tells
    /// a missing name apart from a sector that ends the directory.
    pub fn match_name_entry(&self, name: &ShortFileName, sector: usize) -> (r: Result<
        DirEntry,
        FsError,
    >)
        requires
            self.wf(),
        ensures
            r matches Ok(e) ==> e.filename.name@ == name.name@ && e.filename.ext@ == name.ext@,
    {
        let mut block = Block::new();
        match self.inner.read_block(sector, &mut block) {
            Ok(()) => {},
            Err(e) => {
                return Err(e);
            },
        }
        let mut e: usize = 0;
        while e < BLOCK_SIZE / DIR_ENTRY_LEN
            invariant
                block.wf(),
                e <= BLOCK_SIZE / DIR_ENTRY_LEN,
            decreases BLOCK_SIZE / DIR_ENTRY_LEN - e,
        {
            let mut piece: Vec<u8> = Vec::new();
            let mut i: usize = 0;
            while i < DIR_ENTRY_LEN
                invariant
                    block.wf(),
                    e < BLOCK_SIZE / DIR_ENTRY_LEN,
                    i <= DIR_ENTRY_LEN,
                    piece@.len() == i,
                decreases DIR_ENTRY_LEN - i,
            {
                piece.push(block.data[e * DIR_ENTRY_LEN + i]);
                i = i + 1;
            }
            match DirEntry::parse(piece.as_slice()) {
                Ok(entry) => {
                    if entry.filename.is_eod() {
                        return Err(FsError::FileNotFound);
                    }
                    if entry.filename.matches(name) {
                        return Ok(entry);
                    }
                },
                Err(_) => {},
            }
            e = e + 1;
        }
        Err(FsError::NotInSector)
    }

    /// Find a name in a directory, walking its sectors and, for a data
    /// directory, its cluster chain.
    pub fn open_directory(&self, dir: &Directory, name: &[u8]) -> (r: Result<DirEntry, FsError>)
        requires
            self.wf(),
            dir.cluster.0 == CLUSTER_ROOT_DIR || (2 <= dir.cluster.0 <= 0xFFFF),
        ensures
            r matches Ok(e) ==> e.filename.name@ == crate::direntry::pad_spaces(
                crate::direntry::dot_prefix(crate::direntry::upper_seq(name@)),
                8,
            ),
    {
        let match_name = match ShortFileName::parse(name) {
            Ok(f) => f,
            Err(e) => {
                return Err(e);
            },
        };
        let mut current = Cluster(dir.cluster.0);
        let mut steps: usize = 0;
        while steps < MAX_CLUSTERS
            invariant
                self.wf(),
                current.0 == CLUSTER_ROOT_DIR || (2 <= current.0 <= 0xFFFF),
                match_name.name@ == crate::direntry::pad_spaces(
                    crate::direntry::dot_prefix(crate::direntry::upper_seq(name@)),
                    8,
                ),
            decreases MAX_CLUSTERS - steps,
        {
            let sector_size = if current.0 == CLUSTER_ROOT_DIR {
                if self.first_data_sector >= self.first_root_dir_sector {
                    self.first_data_sector - self.first_root_dir_sector
                } else {
                    0
                }
            } else {
                self.bpb.sectors_per_cluster as usize
            };
            let sector_offset = self.cluster_to_sector(&current);
            let mut s: usize = 0;
            while s < sector_size
                invariant
                    self.wf(),
                    s <= sector_size,
                    sector_size <= 0x10000000,
                    sector_offset <= 0x10000000 + 0xFFFD * 128,
                    match_name.name@ == crate::direntry::pad_spaces(
                        crate::direntry::dot_prefix(crate::direntry::upper_seq(name@)),
                        8,
                    ),
                decreases sector_size - s,
            {
                match self.match_name_entry(&match_name, sector_offset + s) {
                    Err(FsError::NotInSector) => {},
                    other => {
                        return other;
                    },
                }
                s = s + 1;
            }
            if current.0 == CLUSTER_ROOT_DIR {
                break ;
            }
            match self.get_next_cluster(&current) {
                Ok(next) => {
                    if !(2 <= next.0 && next.0 <= 0xFFFF) {
                        break ;
                    }
                    current = next;
                },
                Err(_) => {
                    break ;
                },
            }
            steps = steps + 1;
        }
        Err(FsError::FileNotFound)
    }

    /// Resolve a path to the directory it names, one component at a
    /// time; empty components are skipped, and a file midway refuses.
    pub fn get_dir_from_name(&self, path: &[u8]) -> (r: Result<Directory, FsError>)
        requires
            self.wf(),
    {
        let mut current = Directory::root();
        let mut start: usize = 0;
        while start < path.len()
            invariant
                self.wf(),
                start <= path@.len(),
                current.cluster.0 == CLUSTER_ROOT_DIR || (2 <= current.cluster.0 <= 0xFFFF),
            decreases path@.len() - start,
        {
            // The next component runs to the following separator.
            let mut end: usize = start;
            while end < path.len()
                invariant
                    start <= end <= path@.len(),
                decreases path@.len() - end,
            {
                if path[end] == 0x2F {
                    break ;
                }
                end = end + 1;
            }
            if end > start {
                let mut component: Vec<u8> = Vec::new();
                let mut i: usize = start;
                while i < end
                    invariant
                        start <= i <= end <= path@.len(),
                    decreases end - i,
                {
                    component.push(path[i]);
                    i = i + 1;
                }
                let entry = match self.open_directory(&current, component.as_slice()) {
                    Ok(e) => e,
                    Err(e) => {
                        return Err(e);
                    },
                };
                if entry.is_directory() {
                    if !(entry.cluster.0 == CLUSTER_ROOT_DIR || (2 <= entry.cluster.0
                        && entry.cluster.0 <= 0xFFFF)) {
                        return Err(FsError::BadCluster);
                    }
                    current = Directory::from_entry(&entry);
                } else if end < path.len() {
                    return Err(FsError::NotADirectory);
                } else {
                    break ;
                }
            }
            start = if end < path.len() {
                end + 1
            } else {
                end
            };
        }
        Ok(current)
    }
}

/// An opened file on a FAT16 volume: the read cursor, the cluster the
/// cursor sits in, and the entry the file was opened from.
pub struct File {
    /// The cursor, in bytes from the file's start.
    pub offset: usize,
    /// The cluster holding the cursor.
    pub current_cluster: Cluster,
    /// The directory entry the file was opened from.
    pub entry: DirEntry,
}

impl File {
    /// Open the file an entry names.
    pub fn new(entry: DirEntry) -> (r: File)
        ensures
            r.offset == 0,
            r.current_cluster == entry.cluster,
            r.entry == entry,
    {
        File { offset: 0, current_cluster: entry.cluster, entry }
    }

    /// The file's length in bytes.
    pub fn length(&self) -> (r: usize)
        ensures
            r == self.entry.size,
    {
        self.entry.size as usize
    }

    /// Read from the cursor into `buf`, following the cluster chain;
    /// the read ends at the buffer, the file's end, or a chain fault,
    /// whichever comes first.  Returns how many bytes were placed at
    /// the front of `buf`.
    pub fn read<T: BlockDevice>(&mut self, fs: &Fat16Impl<T>, buf: &mut Vec<u8>) -> (r: Result<
        usize,
        FsError,
    >)
        requires
            fs.wf(),
            old(self).current_cluster.0 == CLUSTER_ROOT_DIR || old(self).current_cluster.0
                <= 0xFFFF,
            old(self).offset <= old(self).entry.size,
        ensures
            final(buf)@.len() == old(buf)@.len(),
            final(self).entry == old(self).entry,
            r matches Ok(n) ==> {
                &&& n <= old(buf)@.len()
                &&& final(self).offset == old(self).offset + n
                &&& old(self).offset + n <= old(self).entry.size
            },
    {
        let size = self.entry.size as usize;
        let mut read: usize = 0;
        let mut guard: usize = 0;
        while guard < MAX_CLUSTERS
            invariant
                fs.wf(),
                read <= buf@.len(),
                self.offset == old(self).offset + read,
                self.offset <= self.entry.size,
                old(self).offset + read <= self.entry.size,
                self.entry == old(self).entry,
                size == self.entry.size,
                buf@.len() == old(buf)@.len(),
                self.current_cluster.0 == CLUSTER_ROOT_DIR || self.current_cluster.0 <= 0xFFFF,
            decreases MAX_CLUSTERS - guard,
        {
            if read >= buf.len() || self.offset >= size {
                break ;
            }
            if !(self.current_cluster.0 == CLUSTER_ROOT_DIR || (2 <= self.current_cluster.0
                && self.current_cluster.0 <= 0xFFFF)) {
                break ;
            }
            let bytes_per_cluster = (fs.bpb.sectors_per_cluster as usize) * BLOCK_SIZE;
            let offset_in_cluster = self.offset % bytes_per_cluster;
            let sector_in_cluster = offset_in_cluster / BLOCK_SIZE;
            let byte_in_sector = self.offset % BLOCK_SIZE;
            let sector = fs.cluster_to_sector(&self.current_cluster) + sector_in_cluster;
            let mut block = Block::new();
            match fs.inner.read_block(sector, &mut block) {
                Ok(()) => {},
                Err(e) => {
                    return Err(e);
                },
            }
            // Take what this sector offers.
            let from_sector = BLOCK_SIZE - byte_in_sector;
            let from_file = size - self.offset;
            let buflen = buf.len();
            let from_buf = buflen - read;
            let mut n = from_sector;
            if from_file < n {
                n = from_file;
            }
            if from_buf < n {
                n = from_buf;
            }
            proof {
                assert(byte_in_sector < BLOCK_SIZE) by (nonlinear_arith)
                    requires
                        byte_in_sector == self.offset % BLOCK_SIZE && BLOCK_SIZE == 512,
                ;
            }
            let mut i: usize = 0;
            while i < n
                invariant
                    block.wf(),
                    byte_in_sector + n <= BLOCK_SIZE,
                    read + n <= buflen,
                    buflen == buf@.len(),
                    i <= n,
                    buf@.len() == old(buf)@.len(),
                decreases n - i,
            {
                let b = block.data[byte_in_sector + i];
                buf.set(read + i, b);
                i = i + 1;
            }
            read = read + n;
            self.offset = self.offset + n;
            // Step to the next cluster at a cluster boundary; a chain
            // that ends early leaves the rest of the file unreadable.
            if self.offset % bytes_per_cluster == 0 && self.offset < size {
                match fs.get_next_cluster(&self.current_cluster) {
                    Ok(next) => {
                        if 2 <= next.0 && next.0 <= 0xFFFF {
                            self.current_cluster = next;
                        } else {
                            return Ok(read);
                        }
                    },
                    Err(e) => {
                        return Err(e);
                    },
                }
            }
            guard = guard + 1;
        }
        Ok(read)
    }
}

} // verus!

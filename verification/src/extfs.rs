//! The second and fourth extended file systems: finding files, reading them, and writing
//! to the blocks that they have.
use crate::bytes;
use crate::storage;
use crate::storage::{BlockDevice, BlockError, DeviceView, MemoryDisk};
use crate::text;
use vstd::prelude::*;
use vstd::string::*;

pub mod laws;
pub mod layout;
mod sample;

verus! {

pub const EXT_MAGIC: u16 = 0xef53;

pub const EXTENT_MAGIC: u16 = 0xf30a;

pub const ROOT_INODE: u32 = 2;

pub const MAX_COMPONENT: usize = 255;

pub const MAX_COMPONENTS: usize = 16;

pub const MAX_BLOCK_SIZE: usize = 4096;

pub const EXT_VALID_FS: u16 = 1;

pub const EXT_ERROR_FS: u16 = 2;

#[derive(Clone, Copy, Debug, PartialEq, Eq, Structural)]
pub enum ExtError {
    Block(BlockError),
    InvalidSuperblock,
    Unsupported,
    NotFound,
    NotDirectory,
    IsDirectory,
    InvalidPath,
    Corrupt,
    ReadOnly,
    NoSpace,
}

#[derive(Clone, Copy, Debug, PartialEq, Eq, Structural)]
pub enum ExtKind {
    Ext2,
    Ext4,
}

#[derive(Clone, Copy, Debug, PartialEq, Eq, Structural)]
pub enum ExtFileKind {
    Regular,
    Directory,
    Symlink,
}

#[derive(Clone, Copy, Debug, PartialEq, Eq, Structural)]
pub struct ExtFileStat {
    pub inode: u32,
    pub kind: ExtFileKind,
    pub mode: u16,
    pub uid: u32,
    pub gid: u32,
    pub size: u64,
}

/// A mounted file system: what its superblock says.
#[derive(Clone, Copy, Debug, PartialEq, Eq, Structural)]
pub struct ExtFilesystem {
    pub kind: ExtKind,
    pub block_size: usize,
    pub inode_size: usize,
    pub descriptor_size: usize,
    pub inodes_per_group: u32,
    pub first_data_block: u32,
    pub blocks_per_group: u32,
    pub total_blocks: u64,
    pub groups: u32,
    pub read_only: bool,
    pub dirty: bool,
}

/// A quotient rounded up.
pub open spec fn quotient_up(value: int, divisor: int) -> int {
    (value + divisor - 1) / divisor
}

/// Mounting: what the superblock says, or why it cannot be mounted.
pub open spec fn mounted(block: Seq<u8>) -> Result<ExtFilesystem, ExtError> {
    let size_exponent = bytes::le32(block, 24);
    let block_size = if size_exponent == 0 {
        1024int
    } else if size_exponent == 1 {
        2048
    } else {
        4096
    };
    let inode_size = if bytes::le32(block, 76) >= 1 {
        bytes::le16(block, 88) as int
    } else {
        128
    };
    let features = bytes::le32(block, 96);
    let extents = (features / 0x40) % 2 == 1;
    let wide = (features / 0x80) % 2 == 1;
    let total = bytes::le32(block, 4) + (if wide {
        bytes::le32(block, 336) * 0x1_0000_0000
    } else {
        0
    });
    let inodes_per_group = bytes::le32(block, 40);
    let blocks_per_group = bytes::le32(block, 32);
    let groups = quotient_up(total, blocks_per_group as int);
    if bytes::le16(block, 56) != EXT_MAGIC {
        Err(ExtError::InvalidSuperblock)
    } else if size_exponent > 2 || inode_size < 128 || inode_size > 4096 {
        Err(ExtError::Unsupported)
    } else if inodes_per_group == 0 || blocks_per_group == 0 || total == 0 {
        Err(ExtError::Corrupt)
    } else {
        Ok(
            ExtFilesystem {
                kind: if extents || wide {
                    ExtKind::Ext4
                } else {
                    ExtKind::Ext2
                },
                block_size: block_size as usize,
                inode_size: inode_size as usize,
                descriptor_size: if !wide {
                    32
                } else if bytes::le16(block, 254) > 64 {
                    bytes::le16(block, 254) as usize
                } else {
                    64
                },
                inodes_per_group,
                first_data_block: bytes::le32(block, 20),
                blocks_per_group,
                total_blocks: total as u64,
                groups: if groups > u32::MAX {
                    u32::MAX
                } else {
                    groups as u32
                },
                read_only: false,
                dirty: bytes::le16(block, 58) != EXT_VALID_FS,
            },
        )
    }
}

/// A block with zeros behind it, up to the size of the largest.
pub open spec fn padded(block: Seq<u8>) -> Seq<u8> {
    Seq::new(
        4096,
        |i: int|
            if i < block.len() {
                block[i]
            } else {
                0
            },
    )
}

impl ExtFilesystem {
    /// The sizes make sense.
    pub open spec fn wf(self) -> bool {
        &&& self.block_size == 1024 || self.block_size == 2048 || self.block_size == 4096
        &&& 128 <= self.inode_size <= 4096
        &&& self.descriptor_size == 32 || self.descriptor_size >= 64
        &&& self.inodes_per_group > 0
    }

    pub open spec fn sectors(self) -> int {
        self.block_size as int / 512
    }

    /// The contents of a block.
    pub open spec fn block(self, device: DeviceView, block: int) -> Result<Seq<u8>, ExtError> {
        let first = block * self.sectors();
        if block >= self.total_blocks || first > u64::MAX {
            Err(ExtError::Corrupt)
        } else {
            match (device.refuses)(first as u64, self.block_size as int, false) {
                Some(error) => Err(ExtError::Block(error)),
                None => Ok(padded(device.at(first, self.block_size as int))),
            }
        }
    }

    /// The first block of the inodes of a group.
    pub open spec fn inode_table(self, device: DeviceView, group: int) -> Result<int, ExtError> {
        let per_block = self.block_size as int / self.descriptor_size as int;
        let base = if self.block_size == 1024 {
            2int
        } else {
            1
        };
        let offset = group % per_block * self.descriptor_size;
        if per_block == 0 {
            Err(ExtError::Corrupt)
        } else {
            match self.block(device, base + group / per_block) {
                Err(error) => Err(error),
                Ok(block) => Ok(
                    bytes::le32(block, offset + 8) + (if self.descriptor_size >= 64 {
                        bytes::le32(block, offset + 40) * 0x1_0000_0000
                    } else {
                        0
                    }),
                ),
            }
        }
    }

    /// Where an inode lies: the block and the offset in it.
    pub open spec fn inode_place(self, device: DeviceView, inode: u32) -> Result<
        (int, int),
        ExtError,
    > {
        let group = (inode - 1) / self.inodes_per_group as int;
        let offset = (inode - 1) % self.inodes_per_group as int * self.inode_size;
        if inode == 0 || group >= self.groups {
            Err(ExtError::Corrupt)
        } else {
            match self.inode_table(device, group) {
                Err(error) => Err(error),
                Ok(table) => Ok(
                    (
                        table + offset / self.block_size as int,
                        offset % self.block_size as int,
                    ),
                ),
            }
        }
    }

    /// How many bytes of an inode lie in its first block.
    pub open spec fn inode_part(self, within: int) -> int {
        if self.inode_size < self.block_size - within {
            self.inode_size as int
        } else {
            self.block_size - within
        }
    }

    /// The bytes of an inode, with zeros behind them.
    pub open spec fn inode(self, device: DeviceView, inode: u32) -> Result<Seq<u8>, ExtError> {
        match self.inode_place(device, inode) {
            Err(error) => Err(error),
            Ok((block, within)) => match self.block(device, block) {
                Err(error) => Err(error),
                Ok(first) => {
                    let part = self.inode_part(within);
                    if part >= self.inode_size {
                        Ok(padded(first.subrange(within, within + self.inode_size)))
                    } else {
                        match self.block(device, block + 1) {
                            Err(error) => Err(error),
                            Ok(second) => Ok(
                                padded(
                                    first.subrange(within, within + part) + second.subrange(
                                        0,
                                        self.inode_size - part,
                                    ),
                                ),
                            ),
                        }
                    }
                },
            },
        }
    }

    /// What an inode says of its file.
    pub open spec fn stat_of(self, device: DeviceView, inode: u32) -> Result<
        ExtFileStat,
        ExtError,
    > {
        match self.inode(device, inode) {
            Err(error) => Err(error),
            Ok(raw) => file_stat(raw, inode),
        }
    }
}

/// The kind of a file by the upper bits of its mode.
pub open spec fn file_kind(mode: u16) -> Option<ExtFileKind> {
    let upper = mode as int / 4096;
    if upper == 4 {
        Some(ExtFileKind::Directory)
    } else if upper == 10 {
        Some(ExtFileKind::Symlink)
    } else if upper == 8 {
        Some(ExtFileKind::Regular)
    } else {
        None
    }
}

/// What the bytes of an inode say.
pub open spec fn file_stat(raw: Seq<u8>, inode: u32) -> Result<ExtFileStat, ExtError> {
    let mode = bytes::le16(raw, 0);
    match file_kind(mode) {
        None => Err(ExtError::Unsupported),
        Some(kind) => Ok(
            ExtFileStat {
                inode,
                kind,
                mode: (mode % 4096) as u16,
                uid: (bytes::le16(raw, 2) + bytes::le16(raw, 120) * 0x1_0000) as u32,
                gid: (bytes::le16(raw, 24) + bytes::le16(raw, 122) * 0x1_0000) as u32,
                size: (bytes::le32(raw, 4) + (if kind == ExtFileKind::Regular {
                    bytes::le32(raw, 108) * 0x1_0000_0000
                } else {
                    0
                })) as u64,
            },
        ),
    }
}

/// The last of the first `count` index entries that starts at or before a block, or -1.
pub open spec fn index_entry(node: Seq<u8>, logical: u32, count: nat) -> int
    decreases count,
{
    if count == 0 {
        -1
    } else if bytes::le32(node, 12 + (count - 1) * 12) <= logical {
        count - 1
    } else {
        index_entry(node, logical, (count - 1) as nat)
    }
}

/// How many index entries a node of this size can have.
pub open spec fn index_count(node: Seq<u8>, size: int) -> nat {
    let entries = bytes::le16(node, 2);
    let room = (size - 12) / 12;
    (if entries < room {
        entries as int
    } else {
        room
    }) as nat
}

/// Whether extent `index` of a node covers a block.
pub open spec fn extent_covers(node: Seq<u8>, logical: u32, index: int) -> bool {
    let at = 12 + index * 12;
    let first = bytes::le32(node, at);
    let length = bytes::le16(node, at + 4) % 0x8000;
    first <= logical && logical < (if first + length > u32::MAX {
        u32::MAX as int
    } else {
        first + length
    })
}

/// The block that an extent of a node gives, from extent `from` on.
pub open spec fn extent_block(node: Seq<u8>, logical: u32, count: int, from: int) -> Option<int>
    decreases count - from,
{
    let at = 12 + from * 12;
    if from >= count {
        None
    } else if extent_covers(node, logical, from) {
        Some(
            bytes::le16(node, at + 6) * 0x1_0000_0000 + bytes::le32(node, at + 8) + (logical
                - bytes::le32(node, at)),
        )
    } else {
        extent_block(node, logical, count, from + 1)
    }
}

/// How many extents are looked at.
pub open spec fn extent_count(node: Seq<u8>) -> int {
    if bytes::le16(node, 2) < 4 {
        bytes::le16(node, 2) as int
    } else {
        4
    }
}

/// The block that a tree of extents gives for a block of the file. A tree with more steps
/// than the file system has blocks leads in a circle.
pub open spec fn tree_block(
    fs: ExtFilesystem,
    device: DeviceView,
    node: Seq<u8>,
    size: int,
    logical: u32,
    steps: nat,
) -> Result<Option<int>, ExtError>
    decreases steps,
{
    if bytes::le16(node, 0) != EXTENT_MAGIC {
        Err(ExtError::Corrupt)
    } else if bytes::le16(node, 6) != 0 {
        let entry = index_entry(node, logical, index_count(node, size));
        let at = 12 + entry * 12;
        let child = bytes::le16(node, at + 8) * 0x1_0000_0000 + bytes::le32(node, at + 4);
        if entry < 0 || steps == 0 {
            Err(ExtError::Corrupt)
        } else {
            match fs.block(device, child) {
                Err(error) => Err(error),
                Ok(block) => tree_block(
                    fs,
                    device,
                    block,
                    fs.block_size as int,
                    logical,
                    (steps - 1) as nat,
                ),
            }
        }
    } else {
        Ok(extent_block(node, logical, extent_count(node), 0))
    }
}

/// The block of the device that holds a block of a file; none if it is a hole.
#[verifier::opaque]
pub open spec fn file_block(
    fs: ExtFilesystem,
    device: DeviceView,
    inode: u32,
    logical: u32,
) -> Result<Option<int>, ExtError> {
    match fs.inode(device, inode) {
        Err(error) => Err(error),
        Ok(raw) => if fs.kind == ExtKind::Ext4 && (bytes::le32(raw, 32) / 0x40) % 2 == 1 {
            tree_block(
                fs,
                device,
                raw.subrange(40, 100),
                60,
                logical,
                fs.total_blocks as nat,
            )
        } else if logical < 12 {
            let block = bytes::le32(raw, 40 + logical * 4);
            Ok(
                if block == 0 {
                    None
                } else {
                    Some(block as int)
                },
            )
        } else {
            Err(ExtError::Unsupported)
        },
    }
}

/// Looking for a name in a directory block, from an offset on: the inode, if it is there.
pub open spec fn name_in_block(block: Seq<u8>, size: int, name: Seq<u8>, offset: int) -> Result<
    Option<u32>,
    ExtError,
>
    decreases size - offset,
{
    let inode = bytes::le32(block, offset);
    let record = bytes::le16(block, offset + 4);
    let length = block[offset + 6];
    if offset < 0 || offset + 8 > size {
        Ok(None)
    } else if record < 8 || offset + record > size {
        Err(ExtError::Corrupt)
    } else if inode != 0 && length == name.len() && offset + 8 + length > 4096 {
        Err(ExtError::Corrupt)
    } else if inode != 0 && length == name.len() && block.subrange(
        offset + 8,
        offset + 8 + length,
    ) == name {
        Ok(Some(inode))
    } else {
        name_in_block(block, size, name, offset + record)
    }
}

/// Looking for a name in a directory, from its block `logical` on.
pub open spec fn name_in_directory(
    fs: ExtFilesystem,
    device: DeviceView,
    directory: u32,
    name: Seq<u8>,
    blocks: int,
    logical: int,
) -> Result<u32, ExtError>
    decreases blocks - logical,
{
    if logical >= blocks || logical < 0 {
        Err(ExtError::NotFound)
    } else {
        match file_block(fs, device, directory, logical as u32) {
            Err(error) => Err(error),
            Ok(None) => name_in_directory(fs, device, directory, name, blocks, logical + 1),
            Ok(Some(physical)) => match fs.block(device, physical) {
                Err(error) => Err(error),
                Ok(block) => match name_in_block(block, fs.block_size as int, name, 0) {
                    Err(error) => Err(error),
                    Ok(Some(inode)) => Ok(inode),
                    Ok(None) => name_in_directory(
                        fs,
                        device,
                        directory,
                        name,
                        blocks,
                        logical + 1,
                    ),
                },
            },
        }
    }
}

/// The child of a directory with a name.
pub open spec fn child_of(fs: ExtFilesystem, device: DeviceView, parent: u32, name: Seq<u8>) -> Result<
    u32,
    ExtError,
> {
    match fs.stat_of(device, parent) {
        Err(error) => Err(error),
        Ok(stat) => if stat.kind != ExtFileKind::Directory {
            Err(ExtError::NotDirectory)
        } else {
            name_in_directory(
                fs,
                device,
                parent,
                name,
                quotient_up(stat.size as int, fs.block_size as int),
                0,
            )
        },
    }
}

/// The first byte from `from` on that is no slash, or the end.
pub open spec fn past_slashes(path: Seq<u8>, from: int) -> int
    decreases path.len() - from,
{
    if from >= path.len() || from < 0 {
        path.len() as int
    } else if path[from] == 47 {
        past_slashes(path, from + 1)
    } else {
        from
    }
}

/// The first slash from `from` on, or the end.
pub open spec fn next_slash(path: Seq<u8>, from: int) -> int
    decreases path.len() - from,
{
    if from >= path.len() || from < 0 {
        path.len() as int
    } else if path[from] == 47 {
        from
    } else {
        next_slash(path, from + 1)
    }
}

/// Following a path from a directory on, at most so many names.
pub open spec fn followed(
    fs: ExtFilesystem,
    device: DeviceView,
    path: Seq<u8>,
    current: u32,
    from: int,
    names: nat,
) -> Result<u32, ExtError>
    decreases names,
{
    let start = past_slashes(path, from);
    let end = next_slash(path, start);
    if names == 0 {
        Err(ExtError::InvalidPath)
    } else if start >= path.len() {
        Ok(current)
    } else if end - start > MAX_COMPONENT {
        Err(ExtError::InvalidPath)
    } else {
        match child_of(fs, device, current, path.subrange(start, end)) {
            Err(error) => Err(error),
            Ok(child) => followed(fs, device, path, child, end, (names - 1) as nat),
        }
    }
}

/// The file at a path.
pub open spec fn looked_up(fs: ExtFilesystem, device: DeviceView, path: Seq<u8>) -> Result<
    u32,
    ExtError,
> {
    if path.len() == 0 || path[0] != 47 {
        Err(ExtError::InvalidPath)
    } else if path.len() == 1 {
        Ok(ROOT_INODE)
    } else {
        followed(fs, device, path, ROOT_INODE, 1, 16)
    }
}

/// How many bytes lie in the block of a place in a file.
pub open spec fn in_block(fs: ExtFilesystem, place: int, remaining: int) -> int {
    let room = fs.block_size - place % fs.block_size as int;
    if remaining < room {
        remaining
    } else {
        room
    }
}

/// The number of the block of a place in a file; numbers have 32 bits.
pub open spec fn logical_of(fs: ExtFilesystem, place: int) -> u32 {
    (place / fs.block_size as int % 0x1_0000_0000) as u32
}

/// The bytes of a file in one block of it; a hole is zeros.
pub open spec fn part_read(
    fs: ExtFilesystem,
    device: DeviceView,
    inode: u32,
    place: int,
    count: int,
) -> Result<Seq<u8>, ExtError> {
    let within = place % fs.block_size as int;
    match file_block(fs, device, inode, logical_of(fs, place)) {
        Err(error) => Err(error),
        Ok(None) => Ok(Seq::new(count as nat, |i: int| 0u8)),
        Ok(Some(physical)) => match fs.block(device, physical) {
            Err(error) => Err(error),
            Ok(block) => Ok(block.subrange(within, within + count)),
        },
    }
}

/// The bytes of a file from a place on, block by block.
pub open spec fn range_read(
    fs: ExtFilesystem,
    device: DeviceView,
    inode: u32,
    place: int,
    remaining: int,
) -> Result<Seq<u8>, ExtError>
    decreases remaining,
{
    let count = in_block(fs, place, remaining);
    if remaining <= 0 || count <= 0 {
        Ok(Seq::empty())
    } else {
        match part_read(fs, device, inode, place, count) {
            Err(error) => Err(error),
            Ok(part) => match range_read(fs, device, inode, place + count, remaining - count) {
                Err(error) => Err(error),
                Ok(rest) => Ok(part + rest),
            },
        }
    }
}

/// The bytes of a file from a place on that can be read before the first block that cannot.
pub open spec fn range_begun(
    fs: ExtFilesystem,
    device: DeviceView,
    inode: u32,
    place: int,
    remaining: int,
) -> Seq<u8>
    decreases remaining,
{
    let count = in_block(fs, place, remaining);
    if remaining <= 0 || count <= 0 {
        Seq::empty()
    } else {
        match part_read(fs, device, inode, place, count) {
            Err(_) => Seq::empty(),
            Ok(part) => part + range_begun(fs, device, inode, place + count, remaining - count),
        }
    }
}

/// How many bytes can be read from an offset on.
pub open spec fn readable(size: u64, offset: u64, wanted: int) -> int {
    if offset >= size {
        0
    } else if wanted < size - offset {
        wanted
    } else {
        size - offset
    }
}

/// Reading a file from an offset on.
#[verifier::opaque]
pub open spec fn file_read(
    fs: ExtFilesystem,
    device: DeviceView,
    path: Seq<u8>,
    offset: u64,
    wanted: int,
) -> Result<Seq<u8>, ExtError> {
    match looked_up(fs, device, path) {
        Err(error) => Err(error),
        Ok(inode) => match fs.stat_of(device, inode) {
            Err(error) => Err(error),
            Ok(stat) => if stat.kind == ExtFileKind::Directory {
                Err(ExtError::IsDirectory)
            } else {
                range_read(
                    fs,
                    device,
                    inode,
                    offset as int,
                    readable(stat.size, offset, wanted),
                )
            },
        },
    }
}

/// The bytes that reading a file from an offset on leaves where it fails: those before the
/// first block that cannot be read.
#[verifier::opaque]
pub open spec fn file_begun(
    fs: ExtFilesystem,
    device: DeviceView,
    path: Seq<u8>,
    offset: u64,
    wanted: int,
) -> Seq<u8> {
    match looked_up(fs, device, path) {
        Err(_) => Seq::empty(),
        Ok(inode) => match fs.stat_of(device, inode) {
            Err(_) => Seq::empty(),
            Ok(stat) => if stat.kind == ExtFileKind::Directory {
                Seq::empty()
            } else {
                range_begun(
                    fs,
                    device,
                    inode,
                    offset as int,
                    readable(stat.size, offset, wanted),
                )
            },
        },
    }
}

impl ExtFilesystem {
    pub fn mount<D: BlockDevice>(device: &mut D) -> (result: Result<Self, ExtError>)
        requires
            old(device).device().wf(),
        ensures
            final(device).device() == old(device).device(),
            result == (match (old(device).device().refuses)(2, 1024, false) {
                Some(error) => Err::<ExtFilesystem, ExtError>(ExtError::Block(error)),
                None => mounted(old(device).device().at(2, 1024)),
            }),
            result is Ok ==> result->Ok_0.wf(),
    {
        let superblock = match read_superblock(device) {
            Err(error) => {
                return Err(error);
            },
            Ok(superblock) => superblock,
        };
        let block = superblock.as_slice();
        if bytes::read_le16(block, 56) != EXT_MAGIC {
            return Err(ExtError::InvalidSuperblock);
        }
        let exponent: u32 = bytes::read_le32(block, 24);
        if exponent > 2 {
            return Err(ExtError::Unsupported);
        }
        let block_size: usize = if exponent == 0 {
            1024
        } else if exponent == 1 {
            2048
        } else {
            4096
        };
        let inode_size: usize = if bytes::read_le32(block, 76) >= 1 {
            bytes::read_le16(block, 88) as usize
        } else {
            128
        };
        if inode_size < 128 || inode_size > MAX_BLOCK_SIZE {
            return Err(ExtError::Unsupported);
        }
        let features: u32 = bytes::read_le32(block, 96);
        let extents = (features / 0x40) % 2 == 1;
        let wide = (features / 0x80) % 2 == 1;
        let kind = if extents || wide {
            ExtKind::Ext4
        } else {
            ExtKind::Ext2
        };
        let high: u64 = if wide {
            bytes::read_le32(block, 336) as u64 * 0x1_0000_0000
        } else {
            0
        };
        let total_blocks: u64 = bytes::read_le32(block, 4) as u64 + high;
        let descriptor_size: usize = if !wide {
            32
        } else if bytes::read_le16(block, 254) > 64 {
            bytes::read_le16(block, 254) as usize
        } else {
            64
        };
        let inodes_per_group: u32 = bytes::read_le32(block, 40);
        let blocks_per_group: u32 = bytes::read_le32(block, 32);
        if inodes_per_group == 0 || blocks_per_group == 0 || total_blocks == 0 {
            return Err(ExtError::Corrupt);
        }
        let count: u64 = divide_up(total_blocks, blocks_per_group as u64);
        let groups: u32 = if count > u32::MAX as u64 {
            u32::MAX
        } else {
            count as u32
        };
        Ok(
            ExtFilesystem {
                kind,
                block_size,
                inode_size,
                descriptor_size,
                inodes_per_group,
                first_data_block: bytes::read_le32(block, 20),
                blocks_per_group,
                total_blocks,
                groups,
                read_only: false,
                dirty: bytes::read_le16(block, 58) != EXT_VALID_FS,
            },
        )
    }

    pub fn kind(&self) -> (kind: ExtKind)
        ensures
            kind == self.kind,
    {
        self.kind
    }

    pub fn block_size(&self) -> (size: usize)
        ensures
            size == self.block_size,
    {
        self.block_size
    }

    pub fn group_count(&self) -> (count: u32)
        ensures
            count == self.groups,
    {
        self.groups
    }

    pub fn total_blocks(&self) -> (count: u64)
        ensures
            count == self.total_blocks,
    {
        self.total_blocks
    }

    pub fn set_read_only(&mut self, read_only: bool)
        ensures
            *final(self) == (ExtFilesystem { read_only, ..*old(self) }),
    {
        self.read_only = read_only;
    }

    pub fn needs_recovery(&self) -> (dirty: bool)
        ensures
            dirty == self.dirty,
    {
        self.dirty
    }

    /// Reads a block.
    fn read_block<D: BlockDevice>(&self, device: &mut D, block: u64) -> (result: Result<
        Vec<u8>,
        ExtError,
    >)
        requires
            self.wf(),
            old(device).device().wf(),
        ensures
            final(device).device() == old(device).device(),
            same_bytes(result, self.block(old(device).device(), block as int)),
            result is Ok ==> result->Ok_0@.len() == 4096,
    {
        if block >= self.total_blocks {
            return Err(ExtError::Corrupt);
        }
        let sectors: u64 = self.block_size as u64 / 512;
        let first: u64 = match block.checked_mul(sectors) {
            None => {
                return Err(ExtError::Corrupt);
            },
            Some(first) => first,
        };
        let mut data: Vec<u8> = zeros(self.block_size);
        match device.read_sectors(first, data.as_mut_slice()) {
            Err(error) => {
                return Err(ExtError::Block(error));
            },
            Ok(_) => {},
        }
        let ghost read = data@;
        while data.len() < 4096
            invariant
                self.wf(),
                read.len() == self.block_size,
                self.block_size <= data@.len() <= 4096,
                forall|i: int| 0 <= i < read.len() ==> #[trigger] data@[i] == read[i],
                forall|i: int| read.len() <= i < data@.len() ==> #[trigger] data@[i] == 0,
            decreases 4096 - data@.len(),
        {
            data.push(0);
        }
        assert(data@ =~= padded(read));
        Ok(data)
    }

    /// The first block of the inodes of a group.
    fn inode_table_block<D: BlockDevice>(&self, device: &mut D, group: u32) -> (result: Result<
        u64,
        ExtError,
    >)
        requires
            self.wf(),
            old(device).device().wf(),
        ensures
            final(device).device() == old(device).device(),
            same_number(result, self.inode_table(old(device).device(), group as int)),
    {
        let per_block: usize = self.block_size / self.descriptor_size;
        if per_block == 0 {
            return Err(ExtError::Corrupt);
        }
        let base: u64 = if self.block_size == 1024 {
            2
        } else {
            1
        };
        proof {
            lemma_descriptor(
                self.block_size as int,
                self.descriptor_size as int,
                group as int,
            );
        }
        let block_number: u64 = base + group as u64 / per_block as u64;
        let offset: usize = (group as u64 % per_block as u64) as usize * self.descriptor_size;
        match self.read_block(device, block_number) {
            Err(error) => Err(error),
            Ok(block) => {
                let low: u64 = bytes::read_le32(block.as_slice(), offset + 8) as u64;
                let high: u64 = if self.descriptor_size >= 64 {
                    bytes::read_le32(block.as_slice(), offset + 40) as u64 * 0x1_0000_0000
                } else {
                    0
                };
                Ok(low + high)
            },
        }
    }
}

/// The descriptors of a block lie in it.
proof fn lemma_descriptor(block_size: int, descriptor_size: int, group: int)
    requires
        1024 <= block_size <= 4096,
        descriptor_size > 0,
        block_size / descriptor_size > 0,
        group >= 0,
    ensures
        0 <= group % (block_size / descriptor_size),
        group % (block_size / descriptor_size) * descriptor_size + descriptor_size <= block_size,
        0 <= group % (block_size / descriptor_size) * descriptor_size,
        0 <= group / (block_size / descriptor_size) <= group,
{
    let per_block = block_size / descriptor_size;
    let index = group % per_block;
    assert(0 <= index < per_block) by (nonlinear_arith)
        requires
            index == group % per_block,
            per_block > 0,
    ;
    assert(per_block * descriptor_size <= block_size) by (nonlinear_arith)
        requires
            per_block == block_size / descriptor_size,
            descriptor_size > 0,
    ;
    assert(index * descriptor_size + descriptor_size <= per_block * descriptor_size) by (nonlinear_arith)
        requires
            index + 1 <= per_block,
            descriptor_size > 0,
    ;
    assert(0 <= index * descriptor_size) by (nonlinear_arith)
        requires
            0 <= index,
            descriptor_size > 0,
    ;
    assert(0 <= group / per_block <= group) by (nonlinear_arith)
        requires
            per_block > 0,
            group >= 0,
    ;
}

/// A result that holds these bytes.
pub open spec fn same_bytes(result: Result<Vec<u8>, ExtError>, expected: Result<Seq<u8>, ExtError>) -> bool {
    match (result, expected) {
        (Ok(bytes), Ok(expected)) => bytes@ == expected,
        (Err(error), Err(expected)) => error == expected,
        _ => false,
    }
}

/// A result that holds this number.
pub open spec fn same_number(result: Result<u64, ExtError>, expected: Result<int, ExtError>) -> bool {
    match (result, expected) {
        (Ok(number), Ok(expected)) => number == expected,
        (Err(error), Err(expected)) => error == expected,
        _ => false,
    }
}

/// Bytes of zero.
fn zeros(count: usize) -> (bytes: Vec<u8>)
    ensures
        bytes@ == Seq::new(count as nat, |i: int| 0u8),
{
    let mut bytes: Vec<u8> = Vec::new();
    while bytes.len() < count
        invariant
            bytes@.len() <= count,
            forall|i: int| 0 <= i < bytes@.len() ==> #[trigger] bytes@[i] == 0,
        decreases count - bytes@.len(),
    {
        bytes.push(0);
    }
    assert(bytes@ =~= Seq::new(count as nat, |i: int| 0u8));
    bytes
}

fn divide_up(value: u64, divisor: u64) -> (quotient: u64)
    requires
        divisor > 0,
    ensures
        quotient == quotient_up(value as int, divisor as int),
{
    let quotient: u64 = value / divisor;
    let rest: u64 = value % divisor;
    proof {
        lemma_divide_up(value as int, divisor as int);
    }
    if rest == 0 {
        quotient
    } else {
        quotient + 1
    }
}

proof fn lemma_divide_up(value: int, divisor: int)
    requires
        divisor > 0,
        value >= 0,
    ensures
        value % divisor == 0 ==> quotient_up(value, divisor) == value / divisor,
        value % divisor != 0 ==> quotient_up(value, divisor) == value / divisor + 1 && value / divisor
            + 1 <= value,
{
    let quotient = value / divisor;
    let rest = value % divisor;
    vstd::arithmetic::div_mod::lemma_fundamental_div_mod(value, divisor);
    if rest == 0 {
        assert((divisor * quotient + divisor - 1) / divisor == quotient) by (nonlinear_arith)
            requires
                divisor > 0,
        ;
    } else {
        assert((divisor * quotient + rest + divisor - 1) / divisor == quotient + 1) by (nonlinear_arith)
            requires
                divisor > 0,
                0 < rest < divisor,
        ;
        assert(quotient + 1 <= divisor * quotient + rest) by (nonlinear_arith)
            requires
                divisor > 0,
                0 < rest,
                quotient >= 0,
        ;
    }
}

/// Reads the superblock.
fn read_superblock<D: BlockDevice>(device: &mut D) -> (result: Result<Vec<u8>, ExtError>)
    requires
        old(device).device().wf(),
    ensures
        final(device).device() == old(device).device(),
        same_bytes(
            result,
            match (old(device).device().refuses)(2, 1024, false) {
                Some(error) => Err::<Seq<u8>, ExtError>(ExtError::Block(error)),
                None => Ok(old(device).device().at(2, 1024)),
            },
        ),
        result is Ok ==> result->Ok_0@.len() == 1024,
{
    let mut superblock: Vec<u8> = zeros(1024);
    match device.read_sectors(2, superblock.as_mut_slice()) {
        Err(error) => Err(ExtError::Block(error)),
        Ok(_) => Ok(superblock),
    }
}

/// A result that holds this optional number.
pub open spec fn same_optional(
    result: Result<Option<u64>, ExtError>,
    expected: Result<Option<int>, ExtError>,
) -> bool {
    match (result, expected) {
        (Ok(Some(number)), Ok(Some(expected))) => number == expected,
        (Ok(None), Ok(None)) => true,
        (Err(error), Err(expected)) => error == expected,
        _ => false,
    }
}

/// A part of bytes, with zeros behind it.
fn pad(part: &[u8]) -> (bytes: Vec<u8>)
    requires
        part@.len() <= 4096,
    ensures
        bytes@ == padded(part@),
{
    let mut bytes: Vec<u8> = Vec::new();
    let mut index: usize = 0;
    while index < 4096
        invariant
            index <= 4096,
            bytes@.len() == index,
            part@.len() <= 4096,
            forall|i: int| 0 <= i < index ==> #[trigger] bytes@[i] == padded(part@)[i],
        decreases 4096 - index,
    {
        if index < part.len() {
            bytes.push(part[index]);
        } else {
            bytes.push(0);
        }
        index += 1;
    }
    assert(bytes@ =~= padded(part@));
    bytes
}

/// Two parts one behind the other.
fn joined(first: &[u8], second: &[u8]) -> (bytes: Vec<u8>)
    ensures
        bytes@ == first@ + second@,
{
    let mut bytes: Vec<u8> = Vec::new();
    append(&mut bytes, first);
    append(&mut bytes, second);
    assert(bytes@ =~= first@ + second@);
    bytes
}

fn append(bytes: &mut Vec<u8>, part: &[u8])
    ensures
        final(bytes)@ == old(bytes)@ + part@,
{
    let mut index: usize = 0;
    assert(bytes@ =~= old(bytes)@ + part@.subrange(0, 0));
    while index < part.len()
        invariant
            index <= part@.len(),
            bytes@ == old(bytes)@ + part@.subrange(0, index as int),
        decreases part@.len() - index,
    {
        bytes.push(part[index]);
        index += 1;
        assert(bytes@ =~= old(bytes)@ + part@.subrange(0, index as int));
    }
    assert(part@.subrange(0, index as int) =~= part@);
}

impl ExtFilesystem {
    /// Where an inode lies: the block and the offset in it. A block that has no number is
    /// behind all others.
    fn find_inode<D: BlockDevice>(&self, device: &mut D, inode: u32) -> (result: Result<
        (Option<u64>, usize),
        ExtError,
    >)
        requires
            self.wf(),
            old(device).device().wf(),
        ensures
            final(device).device() == old(device).device(),
            match (result, self.inode_place(old(device).device(), inode)) {
                (Ok((block, within)), Ok((expected, expected_within))) => {
                    &&& within == expected_within
                    &&& within < self.block_size
                    &&& block is Some ==> block.unwrap() == expected
                    &&& block is None ==> expected > u64::MAX
                },
                (Err(error), Err(expected)) => error == expected,
                _ => false,
            },
    {
        if inode == 0 {
            return Err(ExtError::Corrupt);
        }
        let group: u32 = (inode - 1) / self.inodes_per_group;
        let index: u32 = (inode - 1) % self.inodes_per_group;
        if group >= self.groups {
            return Err(ExtError::Corrupt);
        }
        let table: u64 = match self.inode_table_block(device, group) {
            Err(error) => {
                return Err(error);
            },
            Ok(table) => table,
        };
        assert(index * self.inode_size <= 0xffff_ffff * 4096) by (nonlinear_arith)
            requires
                index <= 0xffff_ffff,
                self.inode_size <= 4096,
        ;
        let offset: u64 = index as u64 * self.inode_size as u64;
        let block = table.checked_add(offset / self.block_size as u64);
        Ok((block, (offset % self.block_size as u64) as usize))
    }

    /// The bytes of an inode.
    fn read_inode_raw<D: BlockDevice>(&self, device: &mut D, inode: u32) -> (result: Result<
        Vec<u8>,
        ExtError,
    >)
        requires
            self.wf(),
            old(device).device().wf(),
        ensures
            final(device).device() == old(device).device(),
            same_bytes(result, self.inode(old(device).device(), inode)),
            result is Ok ==> result->Ok_0@.len() == 4096,
    {
        let (place, within) = match self.find_inode(device, inode) {
            Err(error) => {
                return Err(error);
            },
            Ok(found) => found,
        };
        let block: u64 = match place {
            None => {
                return Err(ExtError::Corrupt);
            },
            Some(block) => block,
        };
        let first = match self.read_block(device, block) {
            Err(error) => {
                return Err(error);
            },
            Ok(first) => first,
        };
        let room: usize = self.block_size - within;
        if self.inode_size <= room {
            let part = vstd::slice::slice_subrange(
                first.as_slice(),
                within,
                within + self.inode_size,
            );
            return Ok(pad(part));
        }
        let second = match block.checked_add(1) {
            None => {
                return Err(ExtError::Corrupt);
            },
            Some(next) => match self.read_block(device, next) {
                Err(error) => {
                    return Err(error);
                },
                Ok(second) => second,
            },
        };
        let start = vstd::slice::slice_subrange(first.as_slice(), within, within + room);
        let end = vstd::slice::slice_subrange(second.as_slice(), 0, self.inode_size - room);
        let raw = joined(start, end);
        Ok(pad(raw.as_slice()))
    }

    fn read_inode_stat<D: BlockDevice>(&self, device: &mut D, inode: u32) -> (result: Result<
        ExtFileStat,
        ExtError,
    >)
        requires
            self.wf(),
            old(device).device().wf(),
        ensures
            final(device).device() == old(device).device(),
            result == self.stat_of(old(device).device(), inode),
    {
        let inode_bytes = match self.read_inode_raw(device, inode) {
            Err(error) => {
                return Err(error);
            },
            Ok(raw) => raw,
        };
        let raw = inode_bytes.as_slice();
        let mode: u16 = bytes::read_le16(raw, 0);
        let upper: u16 = mode / 4096;
        let kind = if upper == 4 {
            ExtFileKind::Directory
        } else if upper == 10 {
            ExtFileKind::Symlink
        } else if upper == 8 {
            ExtFileKind::Regular
        } else {
            return Err(ExtError::Unsupported);
        };
        let high: u64 = if kind == ExtFileKind::Regular {
            bytes::read_le32(raw, 108) as u64 * 0x1_0000_0000
        } else {
            0
        };
        let size: u64 = bytes::read_le32(raw, 4) as u64 + high;
        let uid: u32 = bytes::read_le16(raw, 2) as u32 + bytes::read_le16(raw, 120) as u32 * 0x1_0000;
        let gid: u32 = bytes::read_le16(raw, 24) as u32 + bytes::read_le16(raw, 122) as u32
            * 0x1_0000;
        Ok(ExtFileStat { inode, kind, mode: mode % 4096, uid, gid, size })
    }

    /// The block of the device that holds a block of a file.
    fn map_inode_block<D: BlockDevice>(&self, device: &mut D, inode: u32, logical: u32) -> (result:
        Result<Option<u64>, ExtError>)
        requires
            self.wf(),
            old(device).device().wf(),
        ensures
            final(device).device() == old(device).device(),
            same_optional(result, file_block(*self, old(device).device(), inode, logical)),
    {
        reveal(file_block);
        let raw = match self.read_inode_raw(device, inode) {
            Err(error) => {
                return Err(error);
            },
            Ok(raw) => raw,
        };
        let flags: u32 = bytes::read_le32(raw.as_slice(), 32);
        if self.kind == ExtKind::Ext4 && (flags / 0x40) % 2 == 1 {
            let root = vstd::slice::slice_subrange(raw.as_slice(), 40, 100);
            return self.map_extent(device, root, logical);
        }
        if logical < 12 {
            let block: u32 = bytes::read_le32(raw.as_slice(), 40 + logical as usize * 4);
            if block == 0 {
                return Ok(None);
            }
            return Ok(Some(block as u64));
        }
        Err(ExtError::Unsupported)
    }

    /// The block that a tree of extents gives.
    fn map_extent<D: BlockDevice>(&self, device: &mut D, root: &[u8], logical: u32) -> (result:
        Result<Option<u64>, ExtError>)
        requires
            self.wf(),
            old(device).device().wf(),
            root@.len() == 60,
        ensures
            final(device).device() == old(device).device(),
            same_optional(
                result,
                tree_block(
                    *self,
                    old(device).device(),
                    root@,
                    60,
                    logical,
                    self.total_blocks as nat,
                ),
            ),
    {
        let ghost view = device.device();
        let mut node: Vec<u8> = joined(root, zeros(0).as_slice());
        let mut size: usize = 60;
        let mut steps: u64 = self.total_blocks;
        assert(node@ =~= root@);
        loop
            invariant
                self.wf(),
                device.device() == view,
                view == old(device).device(),
                view.wf(),
                60 <= size <= node@.len() <= 4096,
                tree_block(*self, view, node@, size as int, logical, steps as nat) == tree_block(
                    *self,
                    view,
                    root@,
                    60,
                    logical,
                    self.total_blocks as nat,
                ),
            decreases steps,
        {
            if bytes::read_le16(node.as_slice(), 0) != EXTENT_MAGIC {
                return Err(ExtError::Corrupt);
            }
            if bytes::read_le16(node.as_slice(), 6) == 0 {
                return Ok(find_extent(&node, logical));
            }
            let entry: usize = match find_index(&node, size, logical) {
                None => {
                    return Err(ExtError::Corrupt);
                },
                Some(entry) => entry,
            };
            if steps == 0 {
                return Err(ExtError::Corrupt);
            }
            let at: usize = 12 + entry * 12;
            let child: u64 = bytes::read_le16(node.as_slice(), at + 8) as u64 * 0x1_0000_0000
                + bytes::read_le32(node.as_slice(), at + 4) as u64;
            match self.read_block(device, child) {
                Err(error) => {
                    return Err(error);
                },
                Ok(block) => {
                    node = block;
                },
            }
            size = self.block_size;
            steps = steps - 1;
        }
    }
}

/// The last index entry that starts at or before a block.
fn find_index(node: &Vec<u8>, size: usize, logical: u32) -> (entry: Option<usize>)
    requires
        60 <= size <= node@.len() <= 4096,
    ensures
        entry is None <==> index_entry(node@, logical, index_count(node@, size as int)) < 0,
        entry is Some ==> entry.unwrap() == index_entry(
            node@,
            logical,
            index_count(node@, size as int),
        ) && 12 + entry.unwrap() * 12 + 12 <= size,
{
    let entries: usize = bytes::read_le16(node.as_slice(), 2) as usize;
    let room: usize = (size - 12) / 12;
    let mut count: usize = if entries < room {
        entries
    } else {
        room
    };
    while count > 0
        invariant
            count <= (size - 12) / 12,
            60 <= size <= node@.len() <= 4096,
            index_entry(node@, logical, count as nat) == index_entry(
                node@,
                logical,
                index_count(node@, size as int),
            ),
        decreases count,
    {
        if bytes::read_le32(node.as_slice(), 12 + (count - 1) * 12) <= logical {
            return Some(count - 1);
        }
        count = count - 1;
    }
    None
}

/// The block that the extents of a node give.
fn find_extent(node: &Vec<u8>, logical: u32) -> (block: Option<u64>)
    requires
        node@.len() >= 60,
    ensures
        match (block, extent_block(node@, logical, extent_count(node@), 0)) {
            (Some(block), Some(expected)) => block == expected,
            (None, None) => true,
            _ => false,
        },
{
    let entries: usize = bytes::read_le16(node.as_slice(), 2) as usize;
    let count: usize = if entries < 4 {
        entries
    } else {
        4
    };
    let mut index: usize = 0;
    while index < count
        invariant
            index <= count <= 4,
            count == extent_count(node@),
            node@.len() >= 60,
            extent_block(node@, logical, count as int, index as int) == extent_block(
                node@,
                logical,
                count as int,
                0,
            ),
        decreases count - index,
    {
        let at: usize = 12 + index * 12;
        let first: u32 = bytes::read_le32(node.as_slice(), at);
        let length: u32 = (bytes::read_le16(node.as_slice(), at + 4) % 0x8000) as u32;
        if first <= logical && logical < first.saturating_add(length) {
            let start: u64 = bytes::read_le16(node.as_slice(), at + 6) as u64 * 0x1_0000_0000
                + bytes::read_le32(node.as_slice(), at + 8) as u64;
            return Some(start + (logical - first) as u64);
        }
        index += 1;
    }
    None
}

/// Looks for a name in a directory block.
fn find_name(block: &Vec<u8>, size: usize, name: &[u8]) -> (result: Result<Option<u32>, ExtError>)
    requires
        block@.len() == 4096,
        size <= 4096,
    ensures
        result == name_in_block(block@, size as int, name@, 0),
{
    let mut offset: usize = 0;
    while offset + 8 <= size
        invariant
            block@.len() == 4096,
            offset <= size <= 4096,
            name_in_block(block@, size as int, name@, offset as int) == name_in_block(
                block@,
                size as int,
                name@,
                0,
            ),
        decreases size - offset,
    {
        let inode: u32 = bytes::read_le32(block.as_slice(), offset);
        let record: usize = bytes::read_le16(block.as_slice(), offset + 4) as usize;
        let length: usize = block[offset + 6] as usize;
        if record < 8 || offset + record > size {
            return Err(ExtError::Corrupt);
        }
        if inode != 0 && length == name.len() {
            if offset + 8 + length > 4096 {
                return Err(ExtError::Corrupt);
            }
            let entry = vstd::slice::slice_subrange(
                block.as_slice(),
                offset + 8,
                offset + 8 + length,
            );
            if text::equal(entry, name) {
                return Ok(Some(inode));
            }
        }
        offset = offset + record;
    }
    Ok(None)
}

impl ExtFilesystem {
    /// The child of a directory with a name.
    fn find_child<D: BlockDevice>(&self, device: &mut D, parent: u32, name: &[u8]) -> (result: Result<
        u32,
        ExtError,
    >)
        requires
            self.wf(),
            old(device).device().wf(),
        ensures
            final(device).device() == old(device).device(),
            result == child_of(*self, old(device).device(), parent, name@),
    {
        let stat = match self.read_inode_stat(device, parent) {
            Err(error) => {
                return Err(error);
            },
            Ok(stat) => stat,
        };
        if stat.kind != ExtFileKind::Directory {
            return Err(ExtError::NotDirectory);
        }
        let ghost view = device.device();
        let blocks: u64 = divide_up(stat.size, self.block_size as u64);
        proof {
            lemma_directory_size(*self, view, parent);
        }
        let mut logical: u64 = 0;
        while logical < blocks
            invariant
                self.wf(),
                device.device() == view,
                view == old(device).device(),
                view.wf(),
                logical <= blocks <= u32::MAX,
                name_in_directory(
                    *self,
                    view,
                    parent,
                    name@,
                    blocks as int,
                    logical as int,
                ) == child_of(*self, view, parent, name@),
            decreases blocks - logical,
        {
            match self.map_inode_block(device, parent, logical as u32) {
                Err(error) => {
                    return Err(error);
                },
                Ok(None) => {},
                Ok(Some(physical)) => {
                    let block = match self.read_block(device, physical) {
                        Err(error) => {
                            return Err(error);
                        },
                        Ok(block) => block,
                    };
                    match find_name(&block, self.block_size, name) {
                        Err(error) => {
                            return Err(error);
                        },
                        Ok(Some(inode)) => {
                            return Ok(inode);
                        },
                        Ok(None) => {},
                    }
                },
            }
            logical += 1;
        }
        Err(ExtError::NotFound)
    }

    fn lookup_path<D: BlockDevice>(&self, device: &mut D, path: &str) -> (result: Result<
        u32,
        ExtError,
    >)
        requires
            self.wf(),
            old(device).device().wf(),
        ensures
            final(device).device() == old(device).device(),
            result == looked_up(*self, old(device).device(), path.spec_bytes()),
    {
        let bytes = path.as_bytes();
        if bytes.len() == 0 || bytes[0] != 47 {
            return Err(ExtError::InvalidPath);
        }
        let mut current: u32 = ROOT_INODE;
        if bytes.len() == 1 {
            return Ok(current);
        }
        let ghost view = device.device();
        let mut from: usize = 1;
        let mut names: usize = 16;
        while names > 0
            invariant
                self.wf(),
                device.device() == view,
                view == old(device).device(),
                view.wf(),
                names <= 16,
                from <= bytes@.len(),
                bytes@ == path.spec_bytes(),
                followed(*self, view, bytes@, current, from as int, names as nat) == looked_up(
                    *self,
                    view,
                    path.spec_bytes(),
                ),
            decreases names,
        {
            let start: usize = skip_slashes(bytes, from);
            if start >= bytes.len() {
                return Ok(current);
            }
            let end: usize = find_slash(bytes, start);
            if end - start > MAX_COMPONENT {
                return Err(ExtError::InvalidPath);
            }
            let name = vstd::slice::slice_subrange(bytes, start, end);
            current =
            match self.find_child(device, current, name) {
                Err(error) => {
                    return Err(error);
                },
                Ok(child) => child,
            };
            from = end;
            names = names - 1;
        }
        Err(ExtError::InvalidPath)
    }

    /// The bytes of a file in one block of it.
    fn read_part<D: BlockDevice>(&self, device: &mut D, inode: u32, place: u64, count: usize) -> (
        result: Result<Vec<u8>, ExtError>)
        requires
            self.wf(),
            old(device).device().wf(),
            place as int % self.block_size as int + count <= self.block_size,
        ensures
            final(device).device() == old(device).device(),
            same_bytes(
                result,
                part_read(*self, old(device).device(), inode, place as int, count as int),
            ),
            result is Ok ==> result->Ok_0@.len() == count,
    {
        let logical: u32 = ((place / self.block_size as u64) % 0x1_0000_0000) as u32;
        let within: usize = (place % self.block_size as u64) as usize;
        match self.map_inode_block(device, inode, logical) {
            Err(error) => Err(error),
            Ok(None) => Ok(zeros(count)),
            Ok(Some(physical)) => match self.read_block(device, physical) {
                Err(error) => Err(error),
                Ok(block) => {
                    let part = vstd::slice::slice_subrange(
                        block.as_slice(),
                        within,
                        within + count,
                    );
                    let copy = joined(part, zeros(0).as_slice());
                    assert(copy@ =~= part@);
                    Ok(copy)
                },
            },
        }
    }

    /// The bytes of a file from a place on.
    fn read_inode_range<D: BlockDevice>(
        &self,
        device: &mut D,
        inode: u32,
        offset: u64,
        output: &mut [u8],
    ) -> (result: Result<usize, ExtError>)
        requires
            self.wf(),
            old(device).device().wf(),
        ensures
            final(device).device() == old(device).device(),
            final(output)@.len() == old(output)@.len(),
            match self.stat_of(old(device).device(), inode) {
                Err(error) => result == Err::<usize, ExtError>(error) && final(output)@ == old(
                    output,
                )@,
                Ok(stat) => read_result(
                    old(output)@,
                    final(output)@,
                    result,
                    range_read(
                        *self,
                        old(device).device(),
                        inode,
                        offset as int,
                        readable(stat.size, offset, old(output)@.len() as int),
                    ),
                    range_begun(
                        *self,
                        old(device).device(),
                        inode,
                        offset as int,
                        readable(stat.size, offset, old(output)@.len() as int),
                    ),
                ),
            },
    {
        let stat = match self.read_inode_stat(device, inode) {
            Err(error) => {
                return Err(error);
            },
            Ok(stat) => stat,
        };
        let ghost view = device.device();
        if offset >= stat.size || output.len() == 0 {
            assert(output@ =~= Seq::<u8>::empty() + output@.subrange(0, output@.len() as int));
            return Ok(0);
        }
        let wanted: usize = output.len();
        let available: usize = if (wanted as u64) < stat.size - offset {
            wanted
        } else {
            (stat.size - offset) as usize
        };
        let mut copied: usize = 0;
        let ghost all = range_read(*self, view, inode, offset as int, available as int);
        let ghost begun = range_begun(*self, view, inode, offset as int, available as int);
        let ghost mut done: Seq<u8> = Seq::empty();
        assert(output@.subrange(0, 0) =~= Seq::empty());
        assert(begun =~= done + begun);
        while copied < available
            invariant
                self.wf(),
                device.device() == view,
                view == old(device).device(),
                view.wf(),
                copied <= available <= output@.len(),
                output@.len() == old(output)@.len(),
                offset + available <= u64::MAX,
                available == readable(stat.size, offset, old(output)@.len() as int),
                self.stat_of(view, inode) == Ok::<ExtFileStat, ExtError>(stat),
                output@.subrange(0, copied as int) == done,
                output@.subrange(copied as int, output@.len() as int) == old(output)@.subrange(
                    copied as int,
                    output@.len() as int,
                ),
                all == range_read(*self, view, inode, offset as int, available as int),
                begun == range_begun(*self, view, inode, offset as int, available as int),
                begun == done + range_begun(
                    *self,
                    view,
                    inode,
                    offset + copied,
                    available - copied,
                ),
                rest_read(
                    all,
                    done,
                    range_read(
                        *self,
                        view,
                        inode,
                        offset + copied,
                        available - copied,
                    ),
                ),
            decreases available - copied,
        {
            let cursor: u64 = offset + copied as u64;
            let within: usize = (cursor % self.block_size as u64) as usize;
            let room: usize = self.block_size - within;
            let count: usize = if available - copied < room {
                available - copied
            } else {
                room
            };
            let part = match self.read_part(device, inode, cursor, count) {
                Err(error) => {
                    assert(begun =~= done);
                    assert(output@ =~= done + old(output)@.subrange(
                        copied as int,
                        output@.len() as int,
                    )) by {
                        assert(output@ =~= output@.subrange(0, copied as int) + output@.subrange(
                            copied as int,
                            output@.len() as int,
                        ));
                    }
                    return Err(error);
                },
                Ok(part) => part,
            };
            let ghost before = output@;
            copy_into(output, copied, part.as_slice());
            proof {
                let rest = range_read(
                    *self,
                    view,
                    inode,
                    offset + copied + count,
                    available - copied - count,
                );
                let old_rest = range_read(
                    *self,
                    view,
                    inode,
                    offset + copied,
                    available - copied,
                );
                lemma_rest(all, done, part@, old_rest, rest);
                lemma_copied(
                    old(output)@,
                    before,
                    output@,
                    done,
                    part@,
                    copied as int,
                );
                let more = range_begun(
                    *self,
                    view,
                    inode,
                    offset + copied + count,
                    available - copied - count,
                );
                assert(done + (part@ + more) =~= (done + part@) + more);
                done = done + part@;
            }
            copied = copied + count;
        }
        assert(all == Ok::<Seq<u8>, ExtError>(done)) by {
            assert(done + Seq::<u8>::empty() =~= done);
        }
        assert(output@ =~= done + old(output)@.subrange(copied as int, output@.len() as int)) by {
            assert(output@ =~= output@.subrange(0, copied as int) + output@.subrange(
                copied as int,
                output@.len() as int,
            ));
        }
        Ok(copied)
    }
}

/// Copying the next bytes into a buffer that holds those before them.
proof fn lemma_copied(
    start: Seq<u8>,
    before: Seq<u8>,
    after: Seq<u8>,
    done: Seq<u8>,
    part: Seq<u8>,
    copied: int,
)
    requires
        0 <= copied,
        copied + part.len() <= before.len(),
        start.len() == before.len() == after.len(),
        before.subrange(0, copied) == done,
        before.subrange(copied, before.len() as int) == start.subrange(
            copied,
            before.len() as int,
        ),
        forall|i: int|
            0 <= i < before.len() ==> #[trigger] after[i] == (if copied <= i < copied
                + part.len() {
                part[i - copied]
            } else {
                before[i]
            }),
    ensures
        after.subrange(0, copied + part.len()) == done + part,
        after.subrange(copied + part.len(), after.len() as int) == start.subrange(
            copied + part.len(),
            after.len() as int,
        ),
{
    let end = copied + part.len();
    assert forall|i: int| 0 <= i < end implies after.subrange(0, end as int)[i] == (done + part)[i] by {
        if i < copied {
            assert(before.subrange(0, copied)[i] == done[i]);
        }
    }
    assert(after.subrange(0, end as int) =~= done + part);
    assert forall|i: int| end <= i < after.len() implies after[i] == start[i] by {
        assert(before.subrange(copied, before.len() as int)[i - copied] == start.subrange(
            copied,
            before.len() as int,
        )[i - copied]);
    }
    assert(after.subrange(end as int, after.len() as int) =~= start.subrange(
        end as int,
        after.len() as int,
    ));
}

/// What is left to read behind what was read.
spec fn rest_read(
    all: Result<Seq<u8>, ExtError>,
    done: Seq<u8>,
    rest: Result<Seq<u8>, ExtError>,
) -> bool {
    match rest {
        Ok(rest) => all == Ok::<Seq<u8>, ExtError>(done + rest),
        Err(error) => all == Err::<Seq<u8>, ExtError>(error),
    }
}

proof fn lemma_rest(
    all: Result<Seq<u8>, ExtError>,
    done: Seq<u8>,
    part: Seq<u8>,
    before: Result<Seq<u8>, ExtError>,
    rest: Result<Seq<u8>, ExtError>,
)
    requires
        rest_read(all, done, before),
        rest is Ok ==> before == Ok::<Seq<u8>, ExtError>(part + rest->Ok_0),
        rest is Err ==> before == Err::<Seq<u8>, ExtError>(rest->Err_0),
    ensures
        rest_read(all, done + part, rest),
{
    if rest is Ok {
        assert(done + (part + rest->Ok_0) =~= (done + part) + rest->Ok_0);
    }
}

/// What reading into a buffer gives: the bytes at its start, and how many they are. Where it
/// fails, the bytes that were read before stand there.
pub open spec fn read_result(
    before: Seq<u8>,
    after: Seq<u8>,
    result: Result<usize, ExtError>,
    expected: Result<Seq<u8>, ExtError>,
    begun: Seq<u8>,
) -> bool {
    match expected {
        Err(error) => result == Err::<usize, ExtError>(error) && begun.len() <= before.len()
            && after == begun + before.subrange(begun.len() as int, before.len() as int),
        Ok(data) => result == Ok::<usize, ExtError>(data.len() as usize) && data.len()
            <= before.len() && after == data + before.subrange(
            data.len() as int,
            before.len() as int,
        ),
    }
}

/// A directory has at most as many blocks as numbers have 32 bits.
proof fn lemma_directory_size(fs: ExtFilesystem, device: DeviceView, inode: u32)
    requires
        fs.wf(),
    ensures
        fs.stat_of(device, inode) matches Ok(stat) ==> stat.kind == ExtFileKind::Directory
            ==> quotient_up(stat.size as int, fs.block_size as int) <= u32::MAX,
{
    if let Ok(raw) = fs.inode(device, inode) {
        let size = bytes::le32(raw, 4) as int;
        assert(quotient_up(size, fs.block_size as int) <= u32::MAX) by {
            if fs.block_size == 1024 {
                assert((size + 1023) / 1024 <= u32::MAX);
            } else if fs.block_size == 2048 {
                assert((size + 2047) / 2048 <= u32::MAX);
            } else {
                assert((size + 4095) / 4096 <= u32::MAX);
            }
        }
    }
}

/// Copies bytes into a buffer.
fn copy_into(output: &mut [u8], at: usize, part: &[u8])
    requires
        at + part@.len() <= old(output)@.len(),
    ensures
        final(output)@.len() == old(output)@.len(),
        forall|i: int|
            0 <= i < old(output)@.len() ==> #[trigger] final(output)@[i] == (if at <= i < at
                + part@.len() {
                part@[i - at]
            } else {
                old(output)@[i]
            }),
{
    let size: usize = output.len();
    let mut index: usize = 0;
    while index < part.len()
        invariant
            index <= part@.len(),
            size == output@.len(),
            at + part@.len() <= output@.len(),
            output@.len() == old(output)@.len(),
            forall|i: int|
                0 <= i < output@.len() ==> #[trigger] output@[i] == (if at <= i < at + index {
                    part@[i - at]
                } else {
                    old(output)@[i]
                }),
        decreases part@.len() - index,
    {
        output[at + index] = part[index];
        index += 1;
    }
}

pub(crate) fn skip_slashes(path: &[u8], from: usize) -> (start: usize)
    requires
        from <= path@.len(),
    ensures
        start == past_slashes(path@, from as int),
        from <= start <= path@.len(),
        start > from ==> path@[start - 1] == 47,
        start < path@.len() ==> path@[start as int] != 47,
{
    let mut start: usize = from;
    while start < path.len() && path[start] == 47
        invariant
            from <= start <= path@.len(),
            start > from ==> path@[start - 1] == 47,
            past_slashes(path@, start as int) == past_slashes(path@, from as int),
        decreases path@.len() - start,
    {
        start += 1;
    }
    start
}

pub(crate) fn find_slash(path: &[u8], from: usize) -> (end: usize)
    requires
        from <= path@.len(),
    ensures
        end == next_slash(path@, from as int),
        from <= end <= path@.len(),
        end < path@.len() ==> path@[end as int] == 47,
{
    let mut end: usize = from;
    while end < path.len() && path[end] != 47
        invariant
            from <= end <= path@.len(),
            next_slash(path@, end as int) == next_slash(path@, from as int),
        decreases path@.len() - end,
    {
        end += 1;
    }
    end
}

/// Bytes with others in their place from an offset on.
pub open spec fn spliced(data: Seq<u8>, at: int, part: Seq<u8>) -> Seq<u8> {
    Seq::new(
        data.len(),
        |i: int|
            if at <= i < at + part.len() {
                part[i - at]
            } else {
                data[i]
            },
    )
}

/// The two bytes of a number, the lower first.
pub open spec fn bytes16(value: u16) -> Seq<u8> {
    seq![(value % 256) as u8, (value / 256) as u8]
}

/// The four bytes of a number, the lowest first.
pub open spec fn bytes32(value: u32) -> Seq<u8> {
    seq![
        (value % 256) as u8,
        (value / 256 % 256) as u8,
        (value / 0x1_0000 % 256) as u8,
        (value / 0x100_0000) as u8,
    ]
}

/// Writing a block.
pub open spec fn block_written(
    fs: ExtFilesystem,
    device: DeviceView,
    block: int,
    data: Seq<u8>,
) -> (DeviceView, Result<(), ExtError>) {
    let first = block * fs.sectors();
    if fs.read_only {
        (device, Err(ExtError::ReadOnly))
    } else if data.len() != fs.block_size || first > u64::MAX {
        (device, Err(ExtError::Corrupt))
    } else {
        match (device.refuses)(first as u64, data.len() as int, true) {
            Some(error) => (device, Err(ExtError::Block(error))),
            None => (device.written(first, data), Ok(())),
        }
    }
}

/// Setting the state in the superblock.
pub open spec fn state_set(device: DeviceView, state: u16) -> (DeviceView, Result<(), ExtError>) {
    match (device.refuses)(2, 1024, false) {
        Some(error) => (device, Err(ExtError::Block(error))),
        None => match (device.refuses)(2, 1024, true) {
            Some(error) => (device, Err(ExtError::Block(error))),
            None => (
                device.written(2, spliced(device.at(2, 1024), 58, bytes16(state))),
                Ok(()),
            ),
        },
    }
}

/// Keeping what was written.
pub open spec fn flushed(device: DeviceView) -> (DeviceView, Result<(), ExtError>) {
    match device.flush_refuses {
        Some(error) => (device, Err(ExtError::Block(error))),
        None => (device.keeping(), Ok(())),
    }
}

/// Marking the file system as clean.
pub open spec fn recovered(fs: ExtFilesystem, device: DeviceView) -> (
    ExtFilesystem,
    DeviceView,
    Result<(), ExtError>,
) {
    if !fs.dirty {
        (fs, device, Ok(()))
    } else if fs.read_only {
        (fs, device, Err(ExtError::ReadOnly))
    } else {
        match state_set(device, EXT_VALID_FS) {
            (after, Err(error)) => (fs, after, Err(error)),
            (after, Ok(_)) => match flushed(after) {
                (last, Err(error)) => (fs, last, Err(error)),
                (last, Ok(_)) => (ExtFilesystem { dirty: false, ..fs }, last, Ok(())),
            },
        }
    }
}

/// Keeping what was written and marking the file system as clean.
pub open spec fn synced(fs: ExtFilesystem, device: DeviceView) -> (
    ExtFilesystem,
    DeviceView,
    Result<(), ExtError>,
) {
    match flushed(device) {
        (first, Err(error)) => (fs, first, Err(error)),
        (first, Ok(_)) => match state_set(first, EXT_VALID_FS) {
            (after, Err(error)) => (fs, after, Err(error)),
            (after, Ok(_)) => match flushed(after) {
                (last, Err(error)) => (fs, last, Err(error)),
                (last, Ok(_)) => (ExtFilesystem { dirty: false, ..fs }, last, Ok(())),
            },
        },
    }
}

/// Writing the bytes of an inode.
pub open spec fn inode_written(
    fs: ExtFilesystem,
    device: DeviceView,
    inode: u32,
    raw: Seq<u8>,
) -> (DeviceView, Result<(), ExtError>) {
    if fs.read_only {
        (device, Err(ExtError::ReadOnly))
    } else {
        match fs.inode_place(device, inode) {
            Err(error) => (device, Err(error)),
            Ok((block, within)) => {
                let part = fs.inode_part(within);
                let size = fs.block_size as int;
                match fs.block(device, block) {
                    Err(error) => (device, Err(error)),
                    Ok(first) => match block_written(
                        fs,
                        device,
                        block,
                        spliced(first.subrange(0, size), within, raw.subrange(0, part)),
                    ) {
                        (after, Err(error)) => (after, Err(error)),
                        (after, Ok(_)) => if part >= fs.inode_size {
                            (after, Ok(()))
                        } else {
                            match fs.block(after, block + 1) {
                                Err(error) => (after, Err(error)),
                                Ok(second) => block_written(
                                    fs,
                                    after,
                                    block + 1,
                                    spliced(
                                        second.subrange(0, size),
                                        0,
                                        raw.subrange(part, fs.inode_size as int),
                                    ),
                                ),
                            }
                        },
                    },
                }
            },
        }
    }
}

/// Setting the size of a file.
pub open spec fn size_set(fs: ExtFilesystem, device: DeviceView, inode: u32, size: u64) -> (
    DeviceView,
    Result<(), ExtError>,
) {
    match fs.inode(device, inode) {
        Err(error) => (device, Err(error)),
        Ok(raw) => inode_written(
            fs,
            device,
            inode,
            spliced(
                spliced(raw, 4, bytes32((size % 0x1_0000_0000) as u32)),
                108,
                bytes32((size / 0x1_0000_0000) as u32),
            ),
        ),
    }
}

/// Writing bytes to the blocks of a file, from number `done` of them on.
pub open spec fn data_written(
    fs: ExtFilesystem,
    device: DeviceView,
    inode: u32,
    offset: int,
    input: Seq<u8>,
    done: int,
) -> (DeviceView, Result<(), ExtError>)
    decreases input.len() - done,
{
    let place = offset + done;
    let count = in_block(fs, place, input.len() - done);
    let size = fs.block_size as int;
    if done >= input.len() || count <= 0 {
        (device, Ok(()))
    } else {
        match file_block(fs, device, inode, logical_of(fs, place)) {
            Err(error) => (device, Err(error)),
            Ok(None) => (device, Err(ExtError::NoSpace)),
            Ok(Some(physical)) => match fs.block(device, physical) {
                Err(error) => (device, Err(error)),
                Ok(block) => match block_written(
                    fs,
                    device,
                    physical,
                    spliced(
                        block.subrange(0, size),
                        place % size,
                        input.subrange(done, done + count),
                    ),
                ) {
                    (after, Err(error)) => (after, Err(error)),
                    (after, Ok(_)) => data_written(
                        fs,
                        after,
                        inode,
                        offset,
                        input,
                        done + count,
                    ),
                },
            },
        }
    }
}

/// Marking the file system as not clean before the first change.
pub open spec fn dirtied(fs: ExtFilesystem, device: DeviceView) -> (
    ExtFilesystem,
    DeviceView,
    Result<(), ExtError>,
) {
    if fs.dirty {
        (fs, device, Ok(()))
    } else {
        match state_set(device, EXT_ERROR_FS) {
            (after, Err(error)) => (fs, after, Err(error)),
            (after, Ok(_)) => match flushed(after) {
                (last, Err(error)) => (fs, last, Err(error)),
                (last, Ok(_)) => (ExtFilesystem { dirty: true, ..fs }, last, Ok(())),
            },
        }
    }
}

/// Writing to a file that was found.
pub open spec fn inode_data_written(
    fs: ExtFilesystem,
    device: DeviceView,
    stat: ExtFileStat,
    offset: u64,
    input: Seq<u8>,
) -> (DeviceView, Result<usize, ExtError>) {
    let end = offset + input.len();
    if stat.kind == ExtFileKind::Directory {
        (device, Err(ExtError::IsDirectory))
    } else if end > u64::MAX {
        (device, Err(ExtError::NoSpace))
    } else {
        match data_written(fs, device, stat.inode, offset as int, input, 0) {
            (after, Err(error)) => (after, Err(error)),
            (after, Ok(_)) => {
                let (last, grown) = if end > stat.size {
                    size_set(fs, after, stat.inode, end as u64)
                } else {
                    (after, Ok(()))
                };
                match grown {
                    Err(error) => (last, Err(error)),
                    Ok(_) => match flushed(last) {
                        (kept, Err(error)) => (kept, Err(error)),
                        (kept, Ok(_)) => (kept, Ok(input.len() as usize)),
                    },
                }
            },
        }
    }
}

/// Writing to a file from an offset on, to the blocks that it has.
#[verifier::opaque]
pub open spec fn file_written(
    fs: ExtFilesystem,
    device: DeviceView,
    path: Seq<u8>,
    offset: u64,
    input: Seq<u8>,
) -> (ExtFilesystem, DeviceView, Result<usize, ExtError>) {
    if fs.read_only {
        (fs, device, Err(ExtError::ReadOnly))
    } else {
        match dirtied(fs, device) {
            (same, after, Err(error)) => (same, after, Err(error)),
            (marked, after, Ok(_)) => match looked_up(marked, after, path) {
                Err(error) => (marked, after, Err(error)),
                Ok(inode) => match marked.stat_of(after, inode) {
                    Err(error) => (marked, after, Err(error)),
                    Ok(stat) => {
                        let (last, result) = inode_data_written(
                            marked,
                            after,
                            stat,
                            offset,
                            input,
                        );
                        (marked, last, result)
                    },
                },
            },
        }
    }
}

/// Puts a number of two bytes into a buffer.
fn write_u16(data: &mut [u8], at: usize, value: u16)
    requires
        at + 2 <= old(data)@.len(),
    ensures
        final(data)@ == spliced(old(data)@, at as int, bytes16(value)),
{
    data[at] = (value % 256) as u8;
    data[at + 1] = (value / 256) as u8;
    assert(data@ =~= spliced(old(data)@, at as int, bytes16(value)));
}

/// Puts a number of four bytes into a buffer.
fn write_u32(data: &mut [u8], at: usize, value: u32)
    requires
        at + 4 <= old(data)@.len(),
    ensures
        final(data)@ == spliced(old(data)@, at as int, bytes32(value)),
{
    data[at] = (value % 256) as u8;
    data[at + 1] = (value / 256 % 256) as u8;
    data[at + 2] = (value / 0x1_0000 % 256) as u8;
    data[at + 3] = (value / 0x100_0000) as u8;
    assert(data@ =~= spliced(old(data)@, at as int, bytes32(value)));
}

/// A block of the size of the file system's with other bytes in it.
fn splice(block: &[u8], size: usize, at: usize, part: &[u8]) -> (data: Vec<u8>)
    requires
        size <= block@.len(),
        at + part@.len() <= size,
    ensures
        data@ == spliced(block@.subrange(0, size as int), at as int, part@),
{
    let start = vstd::slice::slice_subrange(block, 0, size);
    let mut data = joined(start, zeros(0).as_slice());
    assert(data@ =~= start@);
    copy_into(data.as_mut_slice(), at, part);
    assert(data@ =~= spliced(block@.subrange(0, size as int), at as int, part@));
    data
}

impl ExtFilesystem {
    fn write_block<D: BlockDevice>(&self, device: &mut D, block: u64, input: &[u8]) -> (result: Result<
        (),
        ExtError,
    >)
        requires
            self.wf(),
            old(device).device().wf(),
        ensures
            final(device).device().wf(),
            (final(device).device(), result) == block_written(
                *self,
                old(device).device(),
                block as int,
                input@,
            ),
    {
        if self.read_only {
            return Err(ExtError::ReadOnly);
        }
        if input.len() != self.block_size {
            return Err(ExtError::Corrupt);
        }
        let sectors: u64 = self.block_size as u64 / 512;
        let first: u64 = match block.checked_mul(sectors) {
            None => {
                return Err(ExtError::Corrupt);
            },
            Some(first) => first,
        };
        match device.write_sectors(first, input) {
            Err(error) => Err(ExtError::Block(error)),
            Ok(_) => Ok(()),
        }
    }

    fn set_superblock_state<D: BlockDevice>(&self, device: &mut D, state: u16) -> (result: Result<
        (),
        ExtError,
    >)
        requires
            old(device).device().wf(),
        ensures
            final(device).device().wf(),
            (final(device).device(), result) == state_set(old(device).device(), state),
    {
        let mut superblock = match read_superblock(device) {
            Err(error) => {
                return Err(error);
            },
            Ok(superblock) => superblock,
        };
        write_u16(superblock.as_mut_slice(), 58, state);
        match device.write_sectors(2, superblock.as_slice()) {
            Err(error) => Err(ExtError::Block(error)),
            Ok(_) => Ok(()),
        }
    }

    fn flush<D: BlockDevice>(&self, device: &mut D) -> (result: Result<(), ExtError>)
        requires
            old(device).device().wf(),
        ensures
            final(device).device().wf(),
            (final(device).device(), result) == flushed(old(device).device()),
    {
        proof {
            laws::lemma_keeping_wf(old(device).device());
        }
        match device.flush() {
            Err(error) => Err(ExtError::Block(error)),
            Ok(_) => Ok(()),
        }
    }

    pub fn recover<D: BlockDevice>(&mut self, device: &mut D) -> (result: Result<(), ExtError>)
        requires
            old(device).device().wf(),
        ensures
            final(device).device().wf(),
            (*final(self), final(device).device(), result) == recovered(
                *old(self),
                old(device).device(),
            ),
    {
        if !self.dirty {
            return Ok(());
        }
        if self.read_only {
            return Err(ExtError::ReadOnly);
        }
        if let Err(error) = self.set_superblock_state(device, EXT_VALID_FS) {
            return Err(error);
        }
        if let Err(error) = self.flush(device) {
            return Err(error);
        }
        self.dirty = false;
        Ok(())
    }

    pub fn sync<D: BlockDevice>(&mut self, device: &mut D) -> (result: Result<(), ExtError>)
        requires
            old(device).device().wf(),
        ensures
            final(device).device().wf(),
            (*final(self), final(device).device(), result) == synced(
                *old(self),
                old(device).device(),
            ),
    {
        if let Err(error) = self.flush(device) {
            return Err(error);
        }
        if let Err(error) = self.set_superblock_state(device, EXT_VALID_FS) {
            return Err(error);
        }
        if let Err(error) = self.flush(device) {
            return Err(error);
        }
        self.dirty = false;
        Ok(())
    }

    pub fn stat<D: BlockDevice>(&self, device: &mut D, path: &str) -> (result: Result<
        ExtFileStat,
        ExtError,
    >)
        requires
            self.wf(),
            old(device).device().wf(),
        ensures
            final(device).device() == old(device).device(),
            result == (match looked_up(*self, old(device).device(), path.spec_bytes()) {
                Err(error) => Err::<ExtFileStat, ExtError>(error),
                Ok(inode) => self.stat_of(old(device).device(), inode),
            }),
    {
        match self.lookup_path(device, path) {
            Err(error) => Err(error),
            Ok(inode) => self.read_inode_stat(device, inode),
        }
    }

    pub fn read_file<D: BlockDevice>(&self, device: &mut D, path: &str, output: &mut [u8]) -> (
        result: Result<usize, ExtError>)
        requires
            self.wf(),
            old(device).device().wf(),
        ensures
            final(device).device() == old(device).device(),
            read_result(
                old(output)@,
                final(output)@,
                result,
                file_read(
                    *self,
                    old(device).device(),
                    path.spec_bytes(),
                    0,
                    old(output)@.len() as int,
                ),
                file_begun(
                    *self,
                    old(device).device(),
                    path.spec_bytes(),
                    0,
                    old(output)@.len() as int,
                ),
            ),
    {
        self.read_at(device, path, 0, output)
    }

    pub fn read_at<D: BlockDevice>(
        &self,
        device: &mut D,
        path: &str,
        offset: u64,
        output: &mut [u8],
    ) -> (result: Result<usize, ExtError>)
        requires
            self.wf(),
            old(device).device().wf(),
        ensures
            final(device).device() == old(device).device(),
            read_result(
                old(output)@,
                final(output)@,
                result,
                file_read(
                    *self,
                    old(device).device(),
                    path.spec_bytes(),
                    offset,
                    old(output)@.len() as int,
                ),
                file_begun(
                    *self,
                    old(device).device(),
                    path.spec_bytes(),
                    offset,
                    old(output)@.len() as int,
                ),
            ),
    {
        reveal(file_read);
        reveal(file_begun);
        assert(output@ =~= Seq::<u8>::empty() + output@.subrange(0, output@.len() as int));
        let inode: u32 = match self.lookup_path(device, path) {
            Err(error) => {
                return Err(error);
            },
            Ok(inode) => inode,
        };
        let stat = match self.read_inode_stat(device, inode) {
            Err(error) => {
                return Err(error);
            },
            Ok(stat) => stat,
        };
        if stat.kind == ExtFileKind::Directory {
            return Err(ExtError::IsDirectory);
        }
        self.read_inode_range(device, inode, offset, output)
    }

    /// Writes the bytes of an inode.
    fn write_inode_raw<D: BlockDevice>(&self, device: &mut D, inode: u32, input: &[u8]) -> (result:
        Result<(), ExtError>)
        requires
            self.wf(),
            old(device).device().wf(),
            input@.len() == 4096,
        ensures
            final(device).device().wf(),
            (final(device).device(), result) == inode_written(
                *self,
                old(device).device(),
                inode,
                input@,
            ),
    {
        if self.read_only {
            return Err(ExtError::ReadOnly);
        }
        let (place, within) = match self.find_inode(device, inode) {
            Err(error) => {
                return Err(error);
            },
            Ok(found) => found,
        };
        let block: u64 = match place {
            None => {
                return Err(ExtError::Corrupt);
            },
            Some(block) => block,
        };
        let first = match self.read_block(device, block) {
            Err(error) => {
                return Err(error);
            },
            Ok(first) => first,
        };
        let room: usize = self.block_size - within;
        let part: usize = if self.inode_size < room {
            self.inode_size
        } else {
            room
        };
        let start = vstd::slice::slice_subrange(input, 0, part);
        let changed = splice(first.as_slice(), self.block_size, within, start);
        if let Err(error) = self.write_block(device, block, changed.as_slice()) {
            return Err(error);
        }
        if part >= self.inode_size {
            return Ok(());
        }
        let next: u64 = match block.checked_add(1) {
            None => {
                return Err(ExtError::Corrupt);
            },
            Some(next) => next,
        };
        let second = match self.read_block(device, next) {
            Err(error) => {
                return Err(error);
            },
            Ok(second) => second,
        };
        if self.inode_size - part > self.block_size {
            proof {
                assert(spliced(
                    second@.subrange(0, self.block_size as int),
                    0,
                    input@.subrange(part as int, self.inode_size as int),
                ) =~= input@.subrange(part as int, part + self.block_size));
            }
            let end = vstd::slice::slice_subrange(input, part, part + self.block_size);
            return self.write_block(device, next, end);
        }
        let end = vstd::slice::slice_subrange(input, part, self.inode_size);
        let changed_next = splice(second.as_slice(), self.block_size, 0, end);
        self.write_block(device, next, changed_next.as_slice())
    }

    fn update_inode_size<D: BlockDevice>(&self, device: &mut D, inode: u32, size: u64) -> (result:
        Result<(), ExtError>)
        requires
            self.wf(),
            old(device).device().wf(),
        ensures
            final(device).device().wf(),
            (final(device).device(), result) == size_set(
                *self,
                old(device).device(),
                inode,
                size,
            ),
    {
        let mut raw = match self.read_inode_raw(device, inode) {
            Err(error) => {
                return Err(error);
            },
            Ok(raw) => raw,
        };
        write_u32(raw.as_mut_slice(), 4, (size % 0x1_0000_0000) as u32);
        write_u32(raw.as_mut_slice(), 108, (size / 0x1_0000_0000) as u32);
        self.write_inode_raw(device, inode, raw.as_slice())
    }

    /// Writes bytes to the blocks of a file.
    fn write_data<D: BlockDevice>(&self, device: &mut D, inode: u32, offset: u64, input: &[u8]) -> (
        result: Result<(), ExtError>)
        requires
            self.wf(),
            old(device).device().wf(),
            offset + input@.len() <= u64::MAX,
        ensures
            final(device).device().wf(),
            (final(device).device(), result) == data_written(
                *self,
                old(device).device(),
                inode,
                offset as int,
                input@,
                0,
            ),
    {
        let mut done: usize = 0;
        let length: usize = input.len();
        while done < length
            invariant
                self.wf(),
                device.device().wf(),
                done <= length,
                length == input@.len(),
                offset + input@.len() <= u64::MAX,
                data_written(
                    *self,
                    device.device(),
                    inode,
                    offset as int,
                    input@,
                    done as int,
                ) == data_written(
                    *self,
                    old(device).device(),
                    inode,
                    offset as int,
                    input@,
                    0,
                ),
            decreases length - done,
        {
            let place: u64 = offset + done as u64;
            let logical: u32 = ((place / self.block_size as u64) % 0x1_0000_0000) as u32;
            let within: usize = (place % self.block_size as u64) as usize;
            let room: usize = self.block_size - within;
            let count: usize = if length - done < room {
                length - done
            } else {
                room
            };
            let physical: u64 = match self.map_inode_block(device, inode, logical) {
                Err(error) => {
                    return Err(error);
                },
                Ok(None) => {
                    return Err(ExtError::NoSpace);
                },
                Ok(Some(physical)) => physical,
            };
            let block = match self.read_block(device, physical) {
                Err(error) => {
                    return Err(error);
                },
                Ok(block) => block,
            };
            let part = vstd::slice::slice_subrange(input, done, done + count);
            let changed = splice(block.as_slice(), self.block_size, within, part);
            if let Err(error) = self.write_block(device, physical, changed.as_slice()) {
                return Err(error);
            }
            done = done + count;
        }
        Ok(())
    }

    pub fn write_at<D: BlockDevice>(
        &mut self,
        device: &mut D,
        path: &str,
        offset: u64,
        input: &[u8],
    ) -> (result: Result<usize, ExtError>)
        requires
            old(self).wf(),
            old(device).device().wf(),
        ensures
            final(self).wf(),
            final(device).device().wf(),
            (*final(self), final(device).device(), result) == file_written(
                *old(self),
                old(device).device(),
                path.spec_bytes(),
                offset,
                input@,
            ),
    {
        reveal(file_written);
        if self.read_only {
            return Err(ExtError::ReadOnly);
        }
        if !self.dirty {
            if let Err(error) = self.set_superblock_state(device, EXT_ERROR_FS) {
                return Err(error);
            }
            if let Err(error) = self.flush(device) {
                return Err(error);
            }
            self.dirty = true;
        }
        let inode: u32 = match self.lookup_path(device, path) {
            Err(error) => {
                return Err(error);
            },
            Ok(inode) => inode,
        };
        let stat = match self.read_inode_stat(device, inode) {
            Err(error) => {
                return Err(error);
            },
            Ok(stat) => stat,
        };
        if stat.kind == ExtFileKind::Directory {
            return Err(ExtError::IsDirectory);
        }
        let length: usize = input.len();
        let end: u64 = match offset.checked_add(length as u64) {
            None => {
                return Err(ExtError::NoSpace);
            },
            Some(end) => end,
        };
        if let Err(error) = self.write_data(device, inode, offset, input) {
            return Err(error);
        }
        if end > stat.size {
            if let Err(error) = self.update_inode_size(device, inode, end) {
                return Err(error);
            }
        }
        if let Err(error) = self.flush(device) {
            return Err(error);
        }
        Ok(length)
    }
}

/// The bytes of an extent tree with one extent of one block.
pub open spec fn extent_bytes(physical: u32) -> Seq<u8> {
    bytes16(EXTENT_MAGIC) + bytes16(1) + bytes16(4) + bytes16(0) + seq![0u8, 0, 0, 0] + bytes32(0)
        + bytes16(1) + bytes16(0) + bytes32(physical)
}

/// The bytes of a directory entry.
pub open spec fn entry_bytes(inode: u32, record_length: u16, name: Seq<u8>, file_type: u8) -> Seq<
    u8,
> {
    bytes32(inode) + bytes16(record_length) + seq![name.len() as u8, file_type] + name
}

/// The bytes of `hello`.
pub open spec fn small_hello() -> Seq<u8> {
    seq![0x68u8, 0x65, 0x6c, 0x6c, 0x6f]
}

/// The bytes of `HELLO`.
pub open spec fn large_hello() -> Seq<u8> {
    seq![0x48u8, 0x45, 0x4c, 0x4c, 0x4f]
}

/// The superblock of a small file system.
spec fn sample_superblock(ext4: bool) -> Seq<u8> {
    let zero = Seq::new(65536, |i: int| 0u8);
    let inodes = spliced(zero, 1024, bytes32(16));
    let blocks = spliced(inodes, 1028, bytes32(64));
    let first = spliced(blocks, 1044, bytes32(1));
    let size = spliced(first, 1048, bytes32(0));
    let group = spliced(size, 1056, bytes32(64));
    let group_inodes = spliced(group, 1064, bytes32(16));
    let magic = spliced(group_inodes, 1080, bytes16(EXT_MAGIC));
    let revision = spliced(magic, 1100, bytes32(1));
    let inode_size = spliced(revision, 1112, bytes16(128));
    if ext4 {
        spliced(spliced(inode_size, 1120, bytes32(0xc0)), 1278, bytes16(64))
    } else {
        inode_size
    }
}

/// The two inodes of a small file system: its directory and its file.
spec fn sample_inodes(ext4: bool) -> Seq<u8> {
    let table = spliced(sample_superblock(ext4), 2056, bytes32(5));
    let root_mode = spliced(table, 5248, bytes16(0x41ed));
    let root_size = spliced(root_mode, 5252, bytes32(1024));
    let root_links = spliced(root_size, 5274, bytes16(2));
    let file_mode = spliced(root_links, 5376, bytes16(0x81a4));
    let file_size = spliced(file_mode, 5380, bytes32(5));
    let file_links = spliced(file_size, 5402, bytes16(1));
    if ext4 {
        let root_flags = spliced(file_links, 5280, bytes32(0x40));
        let root_extent = spliced(root_flags, 5288, extent_bytes(7));
        let file_flags = spliced(root_extent, 5408, bytes32(0x40));
        spliced(file_flags, 5416, extent_bytes(8))
    } else {
        spliced(spliced(file_links, 5288, bytes32(7)), 5416, bytes32(8))
    }
}

/// A small file system with the file `hello`.
#[verifier::opaque]
pub closed spec fn sample(ext4: bool) -> Seq<u8> {
    let own = spliced(sample_inodes(ext4), 7168, entry_bytes(2, 12, seq![0x2eu8], 2));
    let parent = spliced(own, 7180, entry_bytes(2, 12, seq![0x2eu8, 0x2e], 2));
    let file = spliced(parent, 7192, entry_bytes(3, 1000, small_hello(), 1));
    spliced(file, 8192, small_hello())
}

/// Whether a file system on a device is of a kind, holds the file `hello` with these five
/// letters and gives other letters back after they were written.
pub open spec fn hello_kept(device: DeviceView, kind: ExtKind, path: Seq<u8>) -> bool {
    let superblock = device.at(2, 1024);
    match mounted(superblock) {
        Err(_) => false,
        Ok(fs) => {
            let (changed, after, written) = file_written(fs, device, path, 0, large_hello());
            &&& (device.refuses)(2, 1024, false) is None
            &&& fs.kind == kind
            &&& file_read(fs, device, path, 0, 5) == Ok::<Seq<u8>, ExtError>(small_hello())
            &&& written == Ok::<usize, ExtError>(5)
            &&& file_read(changed, after, path, 0, 5) == Ok::<Seq<u8>, ExtError>(large_hello())
        },
    }
}

/// Puts the bytes of an extent tree with one extent into a buffer.
fn write_extent(data: &mut [u8], at: usize, physical: u32)
    requires
        at + 24 <= old(data)@.len(),
        forall|i: int| at + 8 <= i < at + 12 ==> old(data)@[i] == 0,
    ensures
        final(data)@ == spliced(old(data)@, at as int, extent_bytes(physical)),
{
    let size: usize = data.len();
    assert(at + 24 <= size);
    write_u16(data, at, EXTENT_MAGIC);
    write_u16(data, at + 2, 1);
    write_u16(data, at + 4, 4);
    write_u16(data, at + 6, 0);
    write_u32(data, at + 12, 0);
    write_u16(data, at + 16, 1);
    write_u16(data, at + 18, 0);
    write_u32(data, at + 20, physical);
    assert(data@ =~= spliced(old(data)@, at as int, extent_bytes(physical)));
}

/// Puts the bytes of a directory entry into a buffer.
fn write_directory_entry(
    data: &mut [u8],
    at: usize,
    inode: u32,
    record_length: u16,
    name: &[u8],
    file_type: u8,
)
    requires
        at + 8 + name@.len() <= old(data)@.len(),
        name@.len() <= 255,
    ensures
        final(data)@ == spliced(
            old(data)@,
            at as int,
            entry_bytes(inode, record_length, name@, file_type),
        ),
{
    let size: usize = data.len();
    let length: usize = name.len();
    assert(at + 8 + length <= size);
    write_u32(data, at, inode);
    write_u16(data, at + 4, record_length);
    data[at + 6] = length as u8;
    data[at + 7] = file_type;
    copy_into(data, at + 8, name);
    assert(data@ =~= spliced(
        old(data)@,
        at as int,
        entry_bytes(inode, record_length, name@, file_type),
    ));
}

/// The superblock of a small file system, with room behind it.
fn build_superblock(ext4: bool) -> (data: Vec<u8>)
    ensures
        data@ == sample_superblock(ext4),
        data@.len() == 65536,
        forall|i: int| 2048 <= i < 65536 ==> data@[i] == 0,
{
    let mut data = zeros(65536);
    let bytes = data.as_mut_slice();
    write_u32(bytes, 1024, 16);
    write_u32(bytes, 1028, 64);
    write_u32(bytes, 1044, 1);
    write_u32(bytes, 1048, 0);
    write_u32(bytes, 1056, 64);
    write_u32(bytes, 1064, 16);
    write_u16(bytes, 1080, EXT_MAGIC);
    write_u32(bytes, 1100, 1);
    write_u16(bytes, 1112, 128);
    if ext4 {
        write_u32(bytes, 1120, 0xc0);
        write_u16(bytes, 1278, 64);
    }
    data
}

/// A small file system with the file `hello`.
fn build_sample(ext4: bool) -> (data: Vec<u8>)
    ensures
        data@ == sample(ext4),
        data@.len() == 65536,
{
    reveal(sample);
    let mut data = build_superblock(ext4);
    let bytes = data.as_mut_slice();
    write_u32(bytes, 2056, 5);
    write_u16(bytes, 5248, 0x41ed);
    write_u32(bytes, 5252, 1024);
    write_u16(bytes, 5274, 2);
    write_u16(bytes, 5376, 0x81a4);
    write_u32(bytes, 5380, 5);
    write_u16(bytes, 5402, 1);
    if ext4 {
        write_u32(bytes, 5280, 0x40);
        write_extent(bytes, 5288, 7);
        write_u32(bytes, 5408, 0x40);
        write_extent(bytes, 5416, 8);
    } else {
        write_u32(bytes, 5288, 7);
        write_u32(bytes, 5416, 8);
    }
    let own: [u8; 1] = [0x2e];
    let parent: [u8; 2] = [0x2e, 0x2e];
    let hello: [u8; 5] = [0x68, 0x65, 0x6c, 0x6c, 0x6f];
    assert(own@ =~= seq![0x2eu8]);
    assert(parent@ =~= seq![0x2eu8, 0x2e]);
    assert(hello@ =~= small_hello());
    write_directory_entry(bytes, 7168, 2, 12, own.as_slice(), 2);
    write_directory_entry(bytes, 7180, 2, 12, parent.as_slice(), 2);
    write_directory_entry(bytes, 7192, 3, 1000, hello.as_slice(), 1);
    copy_into(bytes, 8192, hello.as_slice());
    assert(data@ =~= sample(ext4));
    data
}

/// Whether the second and the fourth extended file system each keep a file.
pub fn self_test() -> (passed: bool)
    ensures
        passed,
        hello_kept(
            storage::disk_of(sample(false), Seq::empty()),
            ExtKind::Ext2,
            "/hello".spec_bytes(),
        ),
        hello_kept(
            storage::disk_of(sample(true), Seq::empty()),
            ExtKind::Ext4,
            "/hello".spec_bytes(),
        ),
{
    proof {
        sample::lemma_sample_works(false);
        sample::lemma_sample_works(true);
    }
    self_test_kind(false) && self_test_kind(true)
}

/// Reads, writes and reads the file of a small file system.
fn self_test_kind(ext4: bool) -> (passed: bool)
    ensures
        passed == hello_kept(
            storage::disk_of(sample(ext4), Seq::empty()),
            if ext4 {
                ExtKind::Ext4
            } else {
                ExtKind::Ext2
            },
            "/hello".spec_bytes(),
        ),
{
    let image = build_sample(ext4);
    let mut disk = MemoryDisk::new(65536);
    disk.store(0, image.as_slice());
    assert(disk.contents() =~= sample(ext4));
    let kind = if ext4 {
        ExtKind::Ext4
    } else {
        ExtKind::Ext2
    };
    test_hello(&mut disk, kind)
}

/// Reads, writes and reads the file `hello` of a device.
fn test_hello<D: BlockDevice>(disk: &mut D, kind: ExtKind) -> (passed: bool)
    requires
        old(disk).device().wf(),
    ensures
        passed == hello_kept(old(disk).device(), kind, "/hello".spec_bytes()),
{
    let mut filesystem = match ExtFilesystem::mount(disk) {
        Err(_) => {
            return false;
        },
        Ok(filesystem) => filesystem,
    };
    if filesystem.kind() != kind {
        return false;
    }
    let letters: [u8; 5] = [0x68, 0x65, 0x6c, 0x6c, 0x6f];
    let others: [u8; 5] = [0x48, 0x45, 0x4c, 0x4c, 0x4f];
    assert(letters@ =~= small_hello());
    assert(others@ =~= large_hello());
    if !read_five(&filesystem, disk, letters.as_slice()) {
        return false;
    }
    match filesystem.write_at(disk, "/hello", 0, others.as_slice()) {
        Ok(5) => {},
        _ => {
            return false;
        },
    }
    read_five(&filesystem, disk, others.as_slice())
}

/// Whether the file `hello` starts with five letters.
fn read_five<D: BlockDevice>(filesystem: &ExtFilesystem, disk: &mut D, expected: &[u8]) -> (same:
    bool)
    requires
        filesystem.wf(),
        old(disk).device().wf(),
        expected@.len() == 5,
    ensures
        final(disk).device() == old(disk).device(),
        same == (file_read(*filesystem, old(disk).device(), "/hello".spec_bytes(), 0, 5) == Ok::<
            Seq<u8>,
            ExtError,
        >(expected@)),
{
    let mut output = zeros(5);
    let result = filesystem.read_file(disk, "/hello", output.as_mut_slice());
    match result {
        Ok(5) => {
            proof {
                let data = file_read(
                    *filesystem,
                    old(disk).device(),
                    "/hello".spec_bytes(),
                    0,
                    5,
                )->Ok_0;
                assert(output@ =~= data);
            }
            text::equal(output.as_slice(), expected)
        },
        _ => false,
    }
}

} // verus!

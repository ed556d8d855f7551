//! A small file system, and what is found in it.
use crate::bytes;
use crate::extfs;
use crate::extfs::{ExtError, ExtFileKind, ExtFilesystem, ExtKind};
use crate::storage;
use crate::storage::DeviceView;
use vstd::prelude::*;
use vstd::string::*;

verus! {

/// The small file system as it is mounted.
spec fn sample_fs(ext4: bool) -> ExtFilesystem {
    ExtFilesystem {
        kind: if ext4 {
            ExtKind::Ext4
        } else {
            ExtKind::Ext2
        },
        block_size: 1024,
        inode_size: 128,
        descriptor_size: if ext4 {
            64
        } else {
            32
        },
        inodes_per_group: 16,
        first_data_block: 1,
        blocks_per_group: 64,
        total_blocks: 64,
        groups: 1,
        read_only: false,
        dirty: true,
    }
}

/// A device that holds the small file system, with these letters in its file.
spec fn holds_sample(device: DeviceView, ext4: bool, letters: Seq<u8>) -> bool {
    &&& device.bytes.len() == 65536
    &&& letters.len() == 5
    &&& forall|i: int|
        0 <= i < 65536 && !(8192 <= i < 8197) ==> #[trigger] device.bytes[i] == extfs::sample(
            ext4,
        )[i]
    &&& forall|i: int| 0 <= i < 5 ==> device.bytes[8192 + i] == #[trigger] letters[i]
    &&& forall|first: u64, length: int, write: bool| #[trigger]
        (device.refuses)(first, length, write) == storage::disk_refuses(65536, first, length)
}

/// The four bytes of a number at a place.
spec fn word_at(data: Seq<u8>, at: int, value: u32) -> bool {
    data[at] == (value % 256) as u8 && data[at + 1] == (value / 256 % 256) as u8 && data[at + 2]
        == (value / 0x1_0000 % 256) as u8 && data[at + 3] == (value / 0x100_0000) as u8
}

/// The two bytes of a number at a place.
spec fn half_at(data: Seq<u8>, at: int, value: u16) -> bool {
    data[at] == (value % 256) as u8 && data[at + 1] == (value / 256) as u8
}

#[verifier::spinoff_prover]
proof fn lemma_sample_superblock(ext4: bool)
    ensures
        extfs::sample(ext4).len() == 65536,
        word_at(extfs::sample(ext4), 1028, 64),
        word_at(extfs::sample(ext4), 1044, 1),
        word_at(extfs::sample(ext4), 1048, 0),
        word_at(extfs::sample(ext4), 1056, 64),
        word_at(extfs::sample(ext4), 1064, 16),
        half_at(extfs::sample(ext4), 1080, extfs::EXT_MAGIC),
        half_at(extfs::sample(ext4), 1082, 0),
        word_at(extfs::sample(ext4), 1100, 1),
        half_at(extfs::sample(ext4), 1112, 128),
        word_at(
            extfs::sample(ext4),
            1120,
            if ext4 {
                0xc0
            } else {
                0
            },
        ),
        half_at(
            extfs::sample(ext4),
            1278,
            if ext4 {
                64
            } else {
                0
            },
        ),
        word_at(extfs::sample(ext4), 1360, 0),
        word_at(extfs::sample(ext4), 2056, 5),
        word_at(extfs::sample(ext4), 2088, 0),
{
    reveal(extfs::sample);
}

#[verifier::spinoff_prover]
proof fn lemma_sample_inodes(ext4: bool)
    ensures
        half_at(extfs::sample(ext4), 5248, 0x41ed),
        word_at(extfs::sample(ext4), 5252, 1024),
        half_at(extfs::sample(ext4), 5376, 0x81a4),
        word_at(extfs::sample(ext4), 5380, 5),
        word_at(extfs::sample(ext4), 5484, 0),
        !ext4 ==> word_at(extfs::sample(ext4), 5288, 7),
        !ext4 ==> word_at(extfs::sample(ext4), 5416, 8),
        ext4 ==> word_at(extfs::sample(ext4), 5280, 0x40),
        ext4 ==> word_at(extfs::sample(ext4), 5408, 0x40),
        ext4 ==> extent_at(extfs::sample(ext4), 5288, 7),
        ext4 ==> extent_at(extfs::sample(ext4), 5416, 8),
{
    reveal(extfs::sample);
}

/// A tree with one extent of one block at a place.
spec fn extent_at(data: Seq<u8>, at: int, physical: u32) -> bool {
    &&& half_at(data, at, extfs::EXTENT_MAGIC)
    &&& half_at(data, at + 2, 1)
    &&& half_at(data, at + 6, 0)
    &&& word_at(data, at + 12, 0)
    &&& half_at(data, at + 16, 1)
    &&& half_at(data, at + 18, 0)
    &&& word_at(data, at + 20, physical)
}

#[verifier::spinoff_prover]
proof fn lemma_sample_directory(ext4: bool)
    ensures
        word_at(extfs::sample(ext4), 7168, 2),
        half_at(extfs::sample(ext4), 7172, 12),
        extfs::sample(ext4)[7174] == 1,
        word_at(extfs::sample(ext4), 7180, 2),
        half_at(extfs::sample(ext4), 7184, 12),
        extfs::sample(ext4)[7186] == 2,
        word_at(extfs::sample(ext4), 7192, 3),
        half_at(extfs::sample(ext4), 7196, 1000),
        extfs::sample(ext4)[7198] == 5,
        extfs::sample(ext4)[7200] == 0x68,
        extfs::sample(ext4)[7201] == 0x65,
        extfs::sample(ext4)[7202] == 0x6c,
        extfs::sample(ext4)[7203] == 0x6c,
        extfs::sample(ext4)[7204] == 0x6f,
        extfs::sample(ext4)[8192] == 0x68,
        extfs::sample(ext4)[8193] == 0x65,
        extfs::sample(ext4)[8194] == 0x6c,
        extfs::sample(ext4)[8195] == 0x6c,
        extfs::sample(ext4)[8196] == 0x6f,
{
    reveal(extfs::sample);
}

proof fn lemma_word(data: Seq<u8>, at: int, value: u32)
    requires
        word_at(data, at, value),
    ensures
        bytes::le32(data, at) == value,
{
}

proof fn lemma_half(data: Seq<u8>, at: int, value: u16)
    requires
        half_at(data, at, value),
    ensures
        bytes::le16(data, at) == value,
{
}

/// A block of the device.
proof fn lemma_block(device: DeviceView, ext4: bool, letters: Seq<u8>, block: int)
    requires
        holds_sample(device, ext4, letters),
        0 <= block < 64,
    ensures
        sample_fs(ext4).block(device, block) is Ok,
        sample_fs(ext4).block(device, block)->Ok_0.len() == 4096,
        forall|i: int|
            0 <= i < 1024 ==> #[trigger] sample_fs(ext4).block(device, block)->Ok_0[i]
                == device.bytes[block * 1024 + i],
{
    let fs = sample_fs(ext4);
    let first = block * fs.sectors();
    assert(first == block * 2);
    assert((device.refuses)(first as u64, 1024, false) == storage::disk_refuses(
        65536,
        first as u64,
        1024,
    ));
    let seen = fs.block(device, block)->Ok_0;
    assert forall|i: int| 0 <= i < 1024 implies #[trigger] seen[i] == device.bytes[block * 1024
        + i] by {
        assert(device.at(first, 1024)[i] == device.bytes[first * 512 + i]);
    }
}

proof fn lemma_mounted(device: DeviceView, ext4: bool, letters: Seq<u8>)
    requires
        holds_sample(device, ext4, letters),
    ensures
        extfs::mounted(device.at(2, 1024)) == Ok::<ExtFilesystem, ExtError>(sample_fs(ext4)),
        (device.refuses)(2, 1024, false) is None,
{
    lemma_sample_superblock(ext4);
    let block = device.at(2, 1024);
    let data = extfs::sample(ext4);
    assert((device.refuses)(2, 1024, false) == storage::disk_refuses(65536, 2, 1024));
    assert forall|i: int| 0 <= i < 1024 implies #[trigger] block[i] == data[1024 + i] by {
        assert(block[i] == device.bytes[1024 + i]);
    }
    lemma_word(block, 24, 0);
    lemma_word(block, 76, 1);
    lemma_half(block, 88, 128);
    lemma_word(
        block,
        96,
        if ext4 {
            0xc0
        } else {
            0
        },
    );
    lemma_word(block, 4, 64);
    lemma_word(block, 336, 0);
    lemma_word(block, 40, 16);
    lemma_word(block, 32, 64);
    lemma_half(block, 56, extfs::EXT_MAGIC);
    lemma_half(block, 58, 0);
    lemma_half(
        block,
        254,
        if ext4 {
            64
        } else {
            0
        },
    );
    lemma_word(block, 20, 1);
    assert(extfs::quotient_up(64, 64) == 1);
}

/// The two inodes of the file system.
proof fn lemma_inode(device: DeviceView, ext4: bool, letters: Seq<u8>, inode: u32)
    requires
        holds_sample(device, ext4, letters),
        inode == 2 || inode == 3,
    ensures
        sample_fs(ext4).inode_place(device, inode) == Ok::<(int, int), ExtError>(
            (5int, (inode - 1) * 128),
        ),
        sample_fs(ext4).inode(device, inode) is Ok,
        sample_fs(ext4).inode(device, inode)->Ok_0.len() == 4096,
        forall|i: int|
            0 <= i < 128 ==> #[trigger] sample_fs(ext4).inode(device, inode)->Ok_0[i]
                == device.bytes[5120 + (inode - 1) * 128 + i],
{
    let fs = sample_fs(ext4);
    lemma_sample_superblock(ext4);
    lemma_block(device, ext4, letters, 2);
    lemma_block(device, ext4, letters, 5);
    let descriptors = fs.block(device, 2)->Ok_0;
    assert(0int / fs.inodes_per_group as int == 0);
    assert((inode - 1) / 16 == 0 && (inode - 1) % 16 == inode - 1);
    assert(descriptors[8] == device.bytes[2056]);
    assert(word_at(descriptors, 8, 5));
    assert(word_at(descriptors, 40, 0));
    lemma_word(descriptors, 8, 5);
    lemma_word(descriptors, 40, 0);
    let per_block = 1024int / fs.descriptor_size as int;
    assert(per_block == (if ext4 {
        16int
    } else {
        32
    }));
    assert(0int / per_block == 0 && 0int % per_block == 0);
    assert(fs.inode_table(device, 0) == Ok::<int, ExtError>(5int));
    let raw = fs.inode(device, inode)->Ok_0;
    let table = fs.block(device, 5)->Ok_0;
    let within = (inode - 1) * 128;
    assert(fs.inode_place(device, inode) == Ok::<(int, int), ExtError>((5int, within)));
    assert(fs.inode_part(within) == 128);
    assert forall|i: int| 0 <= i < 128 implies #[trigger] raw[i] == device.bytes[5120 + within
        + i] by {
        assert(raw[i] == table[within + i]);
    }
}

/// The only block of the directory is the seventh, and that of the file the eighth.
proof fn lemma_file_block(device: DeviceView, ext4: bool, letters: Seq<u8>, inode: u32)
    requires
        holds_sample(device, ext4, letters),
        inode == 2 || inode == 3,
    ensures
        extfs::file_block(sample_fs(ext4), device, inode, 0) == Ok::<Option<int>, ExtError>(
            Some(
                if inode == 2 {
                    7int
                } else {
                    8
                },
            ),
        ),
{
    reveal(extfs::file_block);
    let fs = sample_fs(ext4);
    let physical: u32 = if inode == 2 {
        7
    } else {
        8
    };
    lemma_inode(device, ext4, letters, inode);
    lemma_sample_inodes(ext4);
    let raw = fs.inode(device, inode)->Ok_0;
    let base = 5120 + (inode - 1) * 128;
    let data = extfs::sample(ext4);
    assert forall|i: int| 0 <= i < 128 implies #[trigger] raw[i] == data[base + i] by {}
    if ext4 {
        let node = raw.subrange(40, 100);
        assert forall|i: int| 0 <= i < 60 implies #[trigger] node[i] == data[base + 40 + i] by {}
        lemma_word(raw, 32, 0x40);
        assert(extent_at(node, 0, physical));
        lemma_half(node, 0, extfs::EXTENT_MAGIC);
        lemma_half(node, 2, 1);
        lemma_half(node, 6, 0);
        lemma_word(node, 12, 0);
        lemma_half(node, 16, 1);
        lemma_half(node, 18, 0);
        lemma_word(node, 20, physical);
        assert(extfs::extent_covers(node, 0, 0));
        assert(extfs::extent_block(node, 0, 1, 0) == Some(physical as int));
    } else {
        lemma_word(raw, 40, physical);
    }
}

/// What the two inodes say of their files.
proof fn lemma_stat(device: DeviceView, ext4: bool, letters: Seq<u8>)
    requires
        holds_sample(device, ext4, letters),
    ensures
        sample_fs(ext4).stat_of(device, 2) matches Ok(stat) && stat.kind == ExtFileKind::Directory
            && stat.size == 1024,
        sample_fs(ext4).stat_of(device, 3) matches Ok(stat) && stat.kind == ExtFileKind::Regular
            && stat.size == 5 && stat.inode == 3,
{
    let fs = sample_fs(ext4);
    lemma_inode(device, ext4, letters, 2);
    lemma_inode(device, ext4, letters, 3);
    lemma_sample_inodes(ext4);
    let root = fs.inode(device, 2)->Ok_0;
    let file = fs.inode(device, 3)->Ok_0;
    assert(half_at(root, 0, 0x41ed));
    assert(word_at(root, 4, 1024));
    assert(half_at(file, 0, 0x81a4));
    assert(word_at(file, 4, 5));
    assert(word_at(file, 108, 0));
    lemma_half(root, 0, 0x41ed);
    lemma_word(root, 4, 1024);
    lemma_half(file, 0, 0x81a4);
    lemma_word(file, 4, 5);
    lemma_word(file, 108, 0);
}

proof fn lemma_path()
    ensures
        "/hello".spec_bytes() == seq![47u8, 0x68, 0x65, 0x6c, 0x6c, 0x6f],
{
    reveal_strlit("/hello");
    is_ascii_spec_bytes("/hello");
    assert("/hello".spec_bytes() =~= seq![47u8, 0x68, 0x65, 0x6c, 0x6c, 0x6f]);
}

/// The name is the third of the directory.
proof fn lemma_name(device: DeviceView, ext4: bool, letters: Seq<u8>)
    requires
        holds_sample(device, ext4, letters),
    ensures
        extfs::name_in_block(
            sample_fs(ext4).block(device, 7)->Ok_0,
            1024,
            extfs::small_hello(),
            0,
        ) == Ok::<Option<u32>, ExtError>(Some(3u32)),
{
    let block = sample_fs(ext4).block(device, 7)->Ok_0;
    let name = extfs::small_hello();
    lemma_block(device, ext4, letters, 7);
    lemma_sample_directory(ext4);
    let data = extfs::sample(ext4);
    assert forall|i: int| 0 <= i < 1024 implies #[trigger] block[i] == data[7168 + i] by {}
    lemma_word(block, 0, 2);
    lemma_half(block, 4, 12);
    lemma_word(block, 12, 2);
    lemma_half(block, 16, 12);
    lemma_word(block, 24, 3);
    lemma_half(block, 28, 1000);
    assert(block[6] == 1 && block[18] == 2 && block[30] == 5);
    assert(block.subrange(32, 37) =~= name);
    assert(extfs::name_in_block(block, 1024, name, 24) == Ok::<Option<u32>, ExtError>(
        Some(3u32),
    ));
    assert(extfs::name_in_block(block, 1024, name, 12) == Ok::<Option<u32>, ExtError>(
        Some(3u32),
    ));
}

proof fn lemma_looked_up(device: DeviceView, ext4: bool, letters: Seq<u8>)
    requires
        holds_sample(device, ext4, letters),
    ensures
        extfs::looked_up(sample_fs(ext4), device, "/hello".spec_bytes()) == Ok::<u32, ExtError>(
            3u32,
        ),
{
    let fs = sample_fs(ext4);
    let path = "/hello".spec_bytes();
    let name = extfs::small_hello();
    lemma_path();
    lemma_stat(device, ext4, letters);
    lemma_file_block(device, ext4, letters, 2);
    lemma_block(device, ext4, letters, 7);
    lemma_name(device, ext4, letters);
    assert(extfs::quotient_up(1024, 1024) == 1);
    reveal_with_fuel(extfs::name_in_directory, 2);
    assert(extfs::child_of(fs, device, 2, name) == Ok::<u32, ExtError>(3u32));
    reveal_with_fuel(extfs::past_slashes, 2);
    reveal_with_fuel(extfs::next_slash, 7);
    assert(extfs::past_slashes(path, 1) == 1);
    assert(extfs::next_slash(path, 1) == 6);
    assert(extfs::past_slashes(path, 6) == 6);
    assert(path.subrange(1, 6) =~= name);
    reveal_with_fuel(extfs::followed, 3);
}

proof fn lemma_read(device: DeviceView, ext4: bool, letters: Seq<u8>)
    requires
        holds_sample(device, ext4, letters),
    ensures
        extfs::file_read(sample_fs(ext4), device, "/hello".spec_bytes(), 0, 5) == Ok::<
            Seq<u8>,
            ExtError,
        >(letters),
{
    let fs = sample_fs(ext4);
    reveal(extfs::file_read);
    lemma_looked_up(device, ext4, letters);
    lemma_stat(device, ext4, letters);
    lemma_file_block(device, ext4, letters, 3);
    lemma_block(device, ext4, letters, 8);
    let block = fs.block(device, 8)->Ok_0;
    assert forall|i: int| 0 <= i < 5 implies #[trigger] letters[i] == block[i] by {
        assert(block[i] == device.bytes[8192 + i]);
    }
    assert(block.subrange(0, 5) =~= letters);
    assert(extfs::logical_of(fs, 0) == 0);
    assert(extfs::in_block(fs, 0, 5) == 5);
    assert(extfs::part_read(fs, device, 3, 0, 5) == Ok::<Seq<u8>, ExtError>(letters));
    reveal_with_fuel(extfs::range_read, 2);
    assert(letters + Seq::<u8>::empty() =~= letters);
}

/// Writing other letters to the file succeeds, and the device then holds them.
proof fn lemma_write(device: DeviceView, ext4: bool, letters: Seq<u8>, others: Seq<u8>)
    requires
        holds_sample(device, ext4, letters),
        device.flush_refuses is None,
        others.len() == 5,
    ensures
        ({
            let (now, after, result) = extfs::file_written(
                sample_fs(ext4),
                device,
                "/hello".spec_bytes(),
                0,
                others,
            );
            &&& now == sample_fs(ext4)
            &&& result == Ok::<usize, ExtError>(5usize)
            &&& holds_sample(after, ext4, others)
        }),
{
    let fs = sample_fs(ext4);
    reveal(extfs::file_written);
    lemma_looked_up(device, ext4, letters);
    lemma_stat(device, ext4, letters);
    lemma_file_block(device, ext4, letters, 3);
    lemma_block(device, ext4, letters, 8);
    let block = fs.block(device, 8)->Ok_0;
    let part = others.subrange(0, 5);
    let data = extfs::spliced(block.subrange(0, 1024), 0, part);
    assert(part =~= others);
    assert(fs.sectors() == 2);
    assert((device.refuses)(16, 1024, true) == storage::disk_refuses(65536, 16, 1024));
    let after = device.written(16, data);
    assert(extfs::block_written(fs, device, 8, data) == (after, Ok::<(), ExtError>(())));
    assert(extfs::logical_of(fs, 0) == 0);
    assert(extfs::in_block(fs, 0, 5) == 5);
    reveal_with_fuel(extfs::data_written, 2);
    assert(extfs::data_written(fs, device, 3, 0, others, 0) == (after, Ok::<(), ExtError>(())));
    assert forall|i: int| 0 <= i < 65536 && !(8192 <= i < 8197) implies #[trigger] after.bytes[i]
        == extfs::sample(ext4)[i] by {
        if 8192 <= i < 9216 {
            assert(block[i - 8192] == device.bytes[i]);
        }
    }
    assert forall|i: int| 0 <= i < 5 implies after.bytes[8192 + i] == #[trigger] others[i] by {
        assert(data[i] == part[i]);
    }
}

/// The file system keeps its file.
pub(super) proof fn lemma_sample_works(ext4: bool)
    ensures
        extfs::hello_kept(
            storage::disk_of(extfs::sample(ext4), Seq::empty()),
            if ext4 {
                ExtKind::Ext4
            } else {
                ExtKind::Ext2
            },
            "/hello".spec_bytes(),
        ),
{
    let device = storage::disk_of(extfs::sample(ext4), Seq::empty());
    let small = extfs::small_hello();
    let large = extfs::large_hello();
    lemma_sample_superblock(ext4);
    lemma_sample_directory(ext4);
    assert(holds_sample(device, ext4, small));
    lemma_mounted(device, ext4, small);
    lemma_read(device, ext4, small);
    lemma_write(device, ext4, small, large);
    let after = extfs::file_written(
        sample_fs(ext4),
        device,
        "/hello".spec_bytes(),
        0,
        large,
    ).1;
    lemma_read(after, ext4, large);
}

} // verus!

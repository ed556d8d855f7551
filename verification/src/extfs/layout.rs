//! Where the bytes of files lie on a device.
use crate::bytes;
use crate::extfs;
use crate::extfs::laws;
use crate::extfs::{ExtError, ExtFileKind, ExtFilesystem, ExtKind};
use crate::storage::DeviceView;
use vstd::prelude::*;

verus! {

/// The number that so many bytes write, the lowest first.
pub open spec fn number(data: Seq<u8>, at: int, count: nat) -> int
    decreases count,
{
    if count == 0 {
        0
    } else {
        data[at] + 256 * number(data, at + 1, (count - 1) as nat)
    }
}

/// Numbers of two, four and eight bytes are read with the lowest byte first.
pub proof fn law_numbers_begin_with_the_lowest_byte(data: Seq<u8>, at: int)
    ensures
        bytes::le16(data, at) == number(data, at, 2),
        bytes::le32(data, at) == number(data, at, 4),
        bytes::le64(data, at) == number(data, at, 8),
        0 <= number(data, at, 2) <= u16::MAX,
        0 <= number(data, at, 4) <= u32::MAX,
        0 <= number(data, at, 8) <= u64::MAX,
{
    reveal_with_fuel(number, 9);
}

/// A run of blocks of a file that lie one behind the other on the device.
#[verifier::ext_equal]
pub struct Extent {
    /// The first block of the file in the run.
    pub first: int,
    /// How many blocks are in the run.
    pub length: int,
    /// Where the first of them lies on the device.
    pub start: int,
}

/// A node of a tree of extents that holds these runs, at most four, and leads to no other
/// node.
pub open spec fn holds_extents(node: Seq<u8>, extents: Seq<Extent>) -> bool {
    &&& node.len() >= 60
    &&& extents.len() <= 4
    &&& number(node, 0, 2) == 0xf30a
    &&& number(node, 2, 2) == extents.len()
    &&& number(node, 6, 2) == 0
    &&& forall|i: int|
        0 <= i < extents.len() ==> {
            let run = #[trigger] extents[i];
            &&& run.first == number(node, 12 + 12 * i, 4)
            &&& run.length == number(node, 16 + 12 * i, 2)
            &&& 0 < run.length < 0x8000
            &&& run.first + run.length <= u32::MAX
            &&& run.start == number(node, 20 + 12 * i, 4) + 0x1_0000_0000 * number(
                node,
                18 + 12 * i,
                2,
            )
        }
}

/// No block of a file is in two runs.
pub open spec fn runs_apart(extents: Seq<Extent>) -> bool {
    forall|i: int, j: int|
        0 <= i < j < extents.len() ==> (#[trigger] extents[i]).first + extents[i].length
            <= (#[trigger] extents[j]).first || extents[j].first + extents[j].length
            <= extents[i].first
}

/// Whether a run holds a block of a file.
pub open spec fn in_run(run: Extent, logical: int) -> bool {
    run.first <= logical < run.first + run.length
}

proof fn lemma_run(node: Seq<u8>, extents: Seq<Extent>, logical: u32, from: int)
    requires
        holds_extents(node, extents),
        runs_apart(extents),
        0 <= from <= extents.len(),
    ensures
        match extfs::extent_block(node, logical, extents.len() as int, from) {
            Some(block) => exists|i: int|
                from <= i < extents.len() && in_run(#[trigger] extents[i], logical as int) && block
                    == extents[i].start + (logical - extents[i].first),
            None => forall|i: int|
                from <= i < extents.len() ==> !in_run(#[trigger] extents[i], logical as int),
        },
    decreases extents.len() - from,
{
    if from < extents.len() {
        let run = extents[from];
        law_numbers_begin_with_the_lowest_byte(node, 12 + 12 * from);
        law_numbers_begin_with_the_lowest_byte(node, 16 + 12 * from);
        law_numbers_begin_with_the_lowest_byte(node, 18 + 12 * from);
        law_numbers_begin_with_the_lowest_byte(node, 20 + 12 * from);
        assert(extfs::extent_covers(node, logical, from) == in_run(run, logical as int));
        if !in_run(run, logical as int) {
            lemma_run(node, extents, logical, from + 1);
        }
    }
}

/// The bytes of an inode whose blocks are given by runs.
pub open spec fn inode_of_extents(raw: Seq<u8>, extents: Seq<Extent>) -> bool {
    &&& raw.len() >= 128
    &&& (number(raw, 32, 4) / 0x40) % 2 == 1
    &&& holds_extents(raw.subrange(40, 100), extents)
    &&& runs_apart(extents)
}

/// A run that starts at a block of a file and at a block of the device maps the block so many
/// behind the one to the block as many behind the other; a block in no run is a hole. So
/// different blocks of a run lie in different blocks of the device.
pub proof fn law_runs_map_block_by_block(
    fs: ExtFilesystem,
    device: DeviceView,
    inode: u32,
    extents: Seq<Extent>,
    run: int,
    k: int,
    logical: u32,
)
    requires
        fs.kind == ExtKind::Ext4,
        fs.inode(device, inode) matches Ok(raw) && inode_of_extents(raw, extents),
    ensures
        0 <= run < extents.len() && 0 <= k < extents[run].length ==> extfs::file_block(
            fs,
            device,
            inode,
            (extents[run].first + k) as u32,
        ) == Ok::<Option<int>, ExtError>(Some(extents[run].start + k)),
        (forall|i: int| 0 <= i < extents.len() ==> !in_run(#[trigger] extents[i], logical as int))
            ==> extfs::file_block(fs, device, inode, logical) == Ok::<Option<int>, ExtError>(None),
{
    reveal(extfs::file_block);
    let raw = fs.inode(device, inode)->Ok_0;
    let node = raw.subrange(40, 100);
    law_numbers_begin_with_the_lowest_byte(raw, 32);
    law_numbers_begin_with_the_lowest_byte(node, 0);
    law_numbers_begin_with_the_lowest_byte(node, 2);
    law_numbers_begin_with_the_lowest_byte(node, 6);
    lemma_run(node, extents, logical, 0);
    if extfs::extent_block(node, logical, extents.len() as int, 0) is Some {
        let i = choose|i: int|
            0 <= i < extents.len() && in_run(#[trigger] extents[i], logical as int);
        assert(in_run(extents[i], logical as int));
    }
    if 0 <= run < extents.len() && 0 <= k < extents[run].length {
        let block = (extents[run].first + k) as u32;
        law_numbers_begin_with_the_lowest_byte(node, 12 + 12 * run);
        assert(block == extents[run].first + k);
        assert(in_run(extents[run], block as int));
        lemma_run(node, extents, block, 0);
        let found = extfs::extent_block(node, block, extents.len() as int, 0);
        assert(found is Some);
        let i = choose|i: int|
            0 <= i < extents.len() && in_run(#[trigger] extents[i], block as int) && found.unwrap()
                == extents[i].start + (block - extents[i].first);
        assert(in_run(extents[i], block as int) && in_run(extents[run], block as int));
        assert(i == run);
    }
}

/// An inode without runs gives each of the first twelve blocks of its file in four bytes; zero
/// is a hole.
pub proof fn law_first_blocks_are_listed(
    fs: ExtFilesystem,
    device: DeviceView,
    inode: u32,
    logical: u32,
)
    requires
        fs.inode(device, inode) is Ok,
        fs.kind == ExtKind::Ext2 || (number(fs.inode(device, inode)->Ok_0, 32, 4) / 0x40) % 2 == 0,
        logical < 12,
    ensures
        ({
            let block = number(fs.inode(device, inode)->Ok_0, 40 + 4 * logical, 4);
            extfs::file_block(fs, device, inode, logical) == Ok::<Option<int>, ExtError>(
                if block == 0 {
                    None
                } else {
                    Some(block)
                },
            )
        }),
{
    reveal(extfs::file_block);
    let raw = fs.inode(device, inode)->Ok_0;
    law_numbers_begin_with_the_lowest_byte(raw, 32);
    law_numbers_begin_with_the_lowest_byte(raw, 40 + 4 * logical);
}

/// The byte of the device that is a byte of a file; zero in a hole.
pub open spec fn file_byte(fs: ExtFilesystem, device: DeviceView, inode: u32, place: int) -> u8 {
    let size = fs.block_size as int;
    match extfs::file_block(fs, device, inode, (place / size) as u32) {
        Ok(Some(block)) => device.bytes[block * size + place % size],
        _ => 0,
    }
}

proof fn lemma_same_block(fs: ExtFilesystem, place: int, i: int, remaining: int)
    requires
        fs.wf(),
        place >= 0,
        remaining > 0,
        0 <= i < extfs::in_block(fs, place, remaining),
    ensures
        (place + i) / fs.block_size as int == place / fs.block_size as int,
        (place + i) % fs.block_size as int == place % fs.block_size as int + i,
{
    let size = fs.block_size as int;
    vstd::arithmetic::div_mod::lemma_fundamental_div_mod(place, size);
    vstd::arithmetic::div_mod::lemma_mod_bound(place, size);
    vstd::arithmetic::div_mod::lemma_fundamental_div_mod_converse(
        place + i,
        size,
        place / size,
        place % size + i,
    );
}

proof fn lemma_range_bytes(
    fs: ExtFilesystem,
    device: DeviceView,
    inode: u32,
    place: int,
    remaining: int,
)
    requires
        fs.wf(),
        device.wf(),
        place >= 0,
        remaining >= 0,
        (place + remaining) / fs.block_size as int <= u32::MAX,
        extfs::range_read(fs, device, inode, place, remaining) is Ok,
    ensures
        extfs::range_read(fs, device, inode, place, remaining)->Ok_0.len() == remaining,
        forall|i: int|
            0 <= i < remaining ==> #[trigger] extfs::range_read(
                fs,
                device,
                inode,
                place,
                remaining,
            )->Ok_0[i] == file_byte(fs, device, inode, place + i),
    decreases remaining,
{
    if remaining > 0 {
        let size = fs.block_size as int;
        let count = extfs::in_block(fs, place, remaining);
        laws::lemma_next_place(fs, place, remaining, place);
        let whole = extfs::range_read(fs, device, inode, place, remaining)->Ok_0;
        let part = extfs::part_read(fs, device, inode, place, count)->Ok_0;
        let rest = extfs::range_read(fs, device, inode, place + count, remaining - count)->Ok_0;
        lemma_range_bytes(fs, device, inode, place + count, remaining - count);
        vstd::arithmetic::div_mod::lemma_div_is_ordered(place, place + remaining, size);
        assert(place / size <= u32::MAX);
        vstd::arithmetic::div_mod::lemma_div_pos_is_pos(place, size);
        assert(extfs::logical_of(fs, place) == (place / size) as u32);
        laws::lemma_file_block(fs, device, inode, extfs::logical_of(fs, place));
        assert forall|i: int| 0 <= i < remaining implies #[trigger] whole[i] == file_byte(
            fs,
            device,
            inode,
            place + i,
        ) by {
            if i < count {
                lemma_same_block(fs, place, i, remaining);
                assert(whole[i] == part[i]);
                if let Ok(Some(block)) = extfs::file_block(
                    fs,
                    device,
                    inode,
                    extfs::logical_of(fs, place),
                ) {
                    let seen = fs.block(device, block)->Ok_0;
                    let first = block * fs.sectors();
                    laws::lemma_sectors(fs, block);
                    assert((device.refuses)(first as u64, size, false) is None);
                    let within = place % size + i;
                    assert(part[i] == seen[within]);
                    assert(device.at(first, size)[within] == device.bytes[first * 512 + within]);
                }
            } else {
                assert(whole[i] == rest[i - count]);
            }
        }
    }
}

/// Reading a file gives the bytes of the device in the blocks of the file, in their order:
/// as many as are asked for, or as there are up to the end of the file.
pub proof fn law_reading_gives_the_bytes_of_the_file(
    fs: ExtFilesystem,
    device: DeviceView,
    path: Seq<u8>,
    offset: u64,
    wanted: int,
    inode: u32,
    size: u64,
)
    requires
        fs.wf(),
        device.wf(),
        wanted >= 0,
        extfs::looked_up(fs, device, path) == Ok::<u32, ExtError>(inode),
        fs.stat_of(device, inode) matches Ok(stat) && stat.kind == ExtFileKind::Regular && stat.size
            == size,
        size as int / fs.block_size as int <= u32::MAX,
    ensures
        extfs::file_read(fs, device, path, offset, wanted) matches Ok(data) ==> {
            &&& offset >= size ==> data.len() == 0
            &&& offset < size && wanted <= size - offset ==> data.len() == wanted
            &&& offset < size && wanted > size - offset ==> data.len() == size - offset
            &&& forall|i: int|
                0 <= i < data.len() ==> #[trigger] data[i] == file_byte(
                    fs,
                    device,
                    inode,
                    offset + i,
                )
        },
{
    reveal(extfs::file_read);
    if extfs::file_read(fs, device, path, offset, wanted) is Ok {
        let count = extfs::readable(size, offset, wanted);
        if offset < size {
            vstd::arithmetic::div_mod::lemma_div_is_ordered(
                offset + count,
                size as int,
                fs.block_size as int,
            );
            lemma_range_bytes(fs, device, inode, offset as int, count);
        }
    }
}

/// An entry of a directory: the number of a file, its name, and how many bytes the entry takes.
#[verifier::ext_equal]
pub struct Entry {
    pub inode: int,
    pub name: Seq<u8>,
    pub record: int,
}

/// A block of a directory that holds these entries from a place on, up to its end.
pub open spec fn holds_entries(block: Seq<u8>, size: int, entries: Seq<Entry>, at: int) -> bool
    decreases entries.len(),
{
    if entries.len() == 0 {
        at == size
    } else {
        let entry = entries[0];
        let length = entry.name.len();
        &&& 0 <= at
        &&& entry.inode == number(block, at, 4)
        &&& entry.record == number(block, at + 4, 2)
        &&& block[at + 6] == length
        &&& length <= 255
        &&& 8 + length <= entry.record
        &&& at + entry.record <= size <= 4096
        &&& forall|i: int| 0 <= i < length ==> block[at + 8 + i] == #[trigger] entry.name[i]
        &&& holds_entries(block, size, entries.skip(1), at + entry.record)
    }
}

/// What is entered in a directory under a name is found under it, where no other entry has the
/// name, and a name that is not entered is not found. An entry with the number zero is none.
pub proof fn law_names_are_found(
    block: Seq<u8>,
    size: int,
    entries: Seq<Entry>,
    at: int,
    name: Seq<u8>,
)
    requires
        block.len() == 4096,
        holds_entries(block, size, entries, at),
    ensures
        match extfs::name_in_block(block, size, name, at) {
            Ok(Some(inode)) => inode != 0 && exists|i: int|
                0 <= i < entries.len() && (#[trigger] entries[i]).name == name && entries[i].inode
                    == inode && forall|j: int|
                    0 <= j < i ==> (#[trigger] entries[j]).name != name || entries[j].inode == 0,
            Ok(None) => forall|i: int|
                0 <= i < entries.len() ==> (#[trigger] entries[i]).name != name
                    || entries[i].inode == 0,
            Err(_) => false,
        },
    decreases entries.len(),
{
    if entries.len() > 0 {
        let entry = entries[0];
        let length = entry.name.len();
        law_numbers_begin_with_the_lowest_byte(block, at);
        law_numbers_begin_with_the_lowest_byte(block, at + 4);
        let seen = block.subrange(at + 8, at + 8 + length);
        assert(seen =~= entry.name);
        let rest = entries.skip(1);
        law_names_are_found(block, size, rest, at + entry.record, name);
        let result = extfs::name_in_block(block, size, name, at);
        if entry.inode != 0 && entry.name == name {
            assert(result == Ok::<Option<u32>, ExtError>(Some(entry.inode as u32)));
            assert(entries[0].name == name);
        } else {
            let later = extfs::name_in_block(block, size, name, at + entry.record);
            assert(result == later);
            if let Ok(Some(inode)) = later {
                let i = choose|i: int|
                    0 <= i < rest.len() && (#[trigger] rest[i]).name == name && rest[i].inode
                        == inode && forall|j: int|
                        0 <= j < i ==> (#[trigger] rest[j]).name != name || rest[j].inode == 0;
                assert(entries[i + 1] == rest[i]);
                assert forall|j: int| 0 <= j < i + 1 implies (#[trigger] entries[j]).name != name
                    || entries[j].inode == 0 by {
                    if j > 0 {
                        assert(entries[j] == rest[j - 1]);
                    }
                }
            } else {
                assert forall|i: int| 0 <= i < entries.len() implies (#[trigger] entries[i]).name
                    != name || entries[i].inode == 0 by {
                    if i > 0 {
                        assert(entries[i] == rest[i - 1]);
                    }
                }
            }
        }
    }
}

/// Where the description of a group lies: in a table that starts in the first block behind the
/// superblock.
pub open spec fn group_place(fs: ExtFilesystem, group: int) -> int {
    (if fs.block_size == 1024 {
        2048
    } else {
        fs.block_size as int
    }) + group * fs.descriptor_size
}

/// The first block of the inodes of a group, as its description says.
pub open spec fn group_inodes(fs: ExtFilesystem, device: DeviceView, group: int) -> int {
    let at = group_place(fs, group);
    number(device.bytes, at + 8, 4) + (if fs.descriptor_size >= 64 {
        0x1_0000_0000 * number(device.bytes, at + 40, 4)
    } else {
        0
    })
}

/// The inodes of a group lie one behind the other from the block on that the description of
/// the group gives; those of the groups are numbered through, from one.
#[verifier::spinoff_prover]
pub proof fn law_inodes_lie_in_their_table(
    fs: ExtFilesystem,
    device: DeviceView,
    inode: u32,
    k: int,
)
    requires
        fs.wf(),
        device.wf(),
        fs.descriptor_size == 32 || fs.descriptor_size == 64,
        fs.inode(device, inode) is Ok,
        0 <= k < 128,
    ensures
        ({
            let group = (inode - 1) / fs.inodes_per_group as int;
            let number = (inode - 1) % fs.inodes_per_group as int;
            &&& inode >= 1
            &&& group < fs.groups
            &&& fs.inode(device, inode)->Ok_0[k] == device.bytes[group_inodes(fs, device, group)
                * fs.block_size + number * fs.inode_size + k]
        }),
{
    let size = fs.block_size as int;
    let group = (inode - 1) / fs.inodes_per_group as int;
    let offset = (inode - 1) % fs.inodes_per_group as int * fs.inode_size;
    let wide = fs.descriptor_size as int;
    let per_block = size / wide;
    let base = if fs.block_size == 1024 {
        2int
    } else {
        1
    };
    laws::lemma_inode_byte(fs, device, inode, k);
    laws::lemma_inode_place(fs, device, inode);
    vstd::arithmetic::div_mod::lemma_div_pos_is_pos(inode - 1, fs.inodes_per_group as int);
    let block = base + group / per_block;
    let start = group % per_block * wide;
    assert(per_block * wide == size) by {
        assert(1024int / 32 == 32 && 2048int / 32 == 64 && 4096int / 32 == 128);
        assert(1024int / 64 == 16 && 2048int / 64 == 32 && 4096int / 64 == 64);
        assert(32 * 32 == 1024 && 64 * 32 == 2048 && 128 * 32 == 4096);
        assert(16 * 64 == 1024 && 32 * 64 == 2048 && 64 * 64 == 4096);
        if size == 1024 {
            assert(per_block == 1024int / wide);
        } else if size == 2048 {
            assert(per_block == 2048int / wide);
        } else {
            assert(per_block == 4096int / wide);
        }
        if wide == 32 {
            assert(per_block * 32 == size);
        } else {
            assert(per_block * 64 == size);
        }
    }
    vstd::arithmetic::div_mod::lemma_fundamental_div_mod(group, per_block);
    vstd::arithmetic::div_mod::lemma_mod_bound(group, per_block);
    assert(block * size + start == group_place(fs, group)) by (nonlinear_arith)
        requires
            block == base + group / per_block,
            start == group % per_block * wide,
            per_block * wide == size,
            group == per_block * (group / per_block) + group % per_block,
            group_place(fs, group) == base * size + group * wide,
    ;
    assert(0 <= start && start + wide <= size) by (nonlinear_arith)
        requires
            start == group % per_block * wide,
            0 <= group % per_block < per_block,
            per_block * wide == size,
            wide > 0,
    ;
    vstd::arithmetic::div_mod::lemma_div_pos_is_pos(group, per_block);
    let seen = fs.block(device, block)->Ok_0;
    let first = block * fs.sectors();
    laws::lemma_sectors(fs, block);
    assert((device.refuses)(first as u64, size, false) is None);
    assert forall|i: int| 0 <= i < size implies #[trigger] seen[i] == device.bytes[block * size
        + i] by {
        assert(device.at(first, size)[i] == device.bytes[first * 512 + i]);
    }
    law_numbers_begin_with_the_lowest_byte(seen, start + 8);
    law_numbers_begin_with_the_lowest_byte(seen, start + 40);
    reveal_with_fuel(number, 5);
    assert(number(seen, start + 8, 4) == number(device.bytes, block * size + start + 8, 4));
    if wide == 64 {
        assert(number(seen, start + 40, 4) == number(device.bytes, block * size + start + 40, 4));
    }
    let table = group_inodes(fs, device, group);
    assert(fs.inode_table(device, group) == Ok::<int, ExtError>(table));
    vstd::arithmetic::div_mod::lemma_fundamental_div_mod(offset, size);
    assert(laws::inode_start(fs, device, inode) == table * size + offset) by (nonlinear_arith)
        requires
            laws::inode_start(fs, device, inode) == (table + offset / size) * size + offset % size,
            offset == size * (offset / size) + offset % size,
    ;
}

/// What an inode says of its file: its kind and mode in two bytes, and its size in four bytes
/// and, for a regular file, four more.
pub proof fn law_inodes_describe_files(raw: Seq<u8>, inode: u32)
    requires
        raw.len() >= 128,
    ensures
        match extfs::file_stat(raw, inode) {
            Ok(stat) => {
                let mode = number(raw, 0, 2);
                &&& stat.inode == inode
                &&& stat.kind == ExtFileKind::Directory <==> mode / 0x1000 == 4
                &&& stat.kind == ExtFileKind::Regular <==> mode / 0x1000 == 8
                &&& stat.kind == ExtFileKind::Symlink <==> mode / 0x1000 == 10
                &&& stat.mode == mode % 0x1000
                &&& stat.uid == number(raw, 2, 2) + 0x1_0000 * number(raw, 120, 2)
                &&& stat.gid == number(raw, 24, 2) + 0x1_0000 * number(raw, 122, 2)
                &&& stat.kind == ExtFileKind::Regular ==> stat.size == number(raw, 4, 4)
                    + 0x1_0000_0000 * number(raw, 108, 4)
                &&& stat.kind != ExtFileKind::Regular ==> stat.size == number(raw, 4, 4)
            },
            Err(error) => error == ExtError::Unsupported && {
                let kind = number(raw, 0, 2) / 0x1000;
                kind != 4 && kind != 8 && kind != 10
            },
        },
{
    law_numbers_begin_with_the_lowest_byte(raw, 0);
    law_numbers_begin_with_the_lowest_byte(raw, 2);
    law_numbers_begin_with_the_lowest_byte(raw, 4);
    law_numbers_begin_with_the_lowest_byte(raw, 24);
    law_numbers_begin_with_the_lowest_byte(raw, 108);
    law_numbers_begin_with_the_lowest_byte(raw, 120);
    law_numbers_begin_with_the_lowest_byte(raw, 122);
}

/// A node of a tree of extents that leads to other nodes leads to the last of them that starts
/// at the block that is looked for or before it.
pub proof fn law_trees_lead_to_the_run(
    fs: ExtFilesystem,
    device: DeviceView,
    node: Seq<u8>,
    size: int,
    logical: u32,
    steps: nat,
    entry: int,
)
    requires
        size >= 60,
        steps > 0,
        number(node, 0, 2) == 0xf30a,
        number(node, 6, 2) > 0,
        number(node, 2, 2) <= (size - 12) / 12,
        0 <= entry < number(node, 2, 2),
        number(node, 12 + 12 * entry, 4) <= logical,
        forall|later: int|
            entry < later < number(node, 2, 2) ==> #[trigger] number(node, 12 + 12 * later, 4)
                > logical,
    ensures
        ({
            let child = number(node, 16 + 12 * entry, 4) + 0x1_0000_0000 * number(
                node,
                20 + 12 * entry,
                2,
            );
            extfs::tree_block(fs, device, node, size, logical, steps) == (match fs.block(
                device,
                child,
            ) {
                Ok(block) => extfs::tree_block(
                    fs,
                    device,
                    block,
                    fs.block_size as int,
                    logical,
                    (steps - 1) as nat,
                ),
                Err(error) => Err(error),
            })
        }),
{
    law_numbers_begin_with_the_lowest_byte(node, 0);
    law_numbers_begin_with_the_lowest_byte(node, 2);
    law_numbers_begin_with_the_lowest_byte(node, 6);
    law_numbers_begin_with_the_lowest_byte(node, 16 + 12 * entry);
    law_numbers_begin_with_the_lowest_byte(node, 20 + 12 * entry);
    lemma_entry(node, logical, number(node, 2, 2) as nat, entry);
}

proof fn lemma_entry(node: Seq<u8>, logical: u32, count: nat, entry: int)
    requires
        0 <= entry < count,
        number(node, 12 + 12 * entry, 4) <= logical,
        forall|later: int|
            entry < later < count ==> #[trigger] number(node, 12 + 12 * later, 4) > logical,
    ensures
        extfs::index_entry(node, logical, count) == entry,
    decreases count,
{
    law_numbers_begin_with_the_lowest_byte(node, 12 + 12 * (count - 1));
    if entry < count - 1 {
        assert(number(node, 12 + 12 * (count - 1), 4) > logical);
        lemma_entry(node, logical, (count - 1) as nat, entry);
    }
}

} // verus!

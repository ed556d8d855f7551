//! What reading and writing files promise together.
use crate::bytes;
use crate::extfs;
use crate::extfs::{ExtError, ExtFileKind, ExtFilesystem, ExtKind};
use crate::storage::DeviceView;
use vstd::prelude::*;

verus! {

/// Whether a byte of the device belongs to a block.
pub open spec fn within(fs: ExtFilesystem, block: int, byte: int) -> bool {
    block * fs.block_size <= byte < (block + 1) * fs.block_size
}

/// Whether a block holds some of the bytes of a file from one place to another.
pub open spec fn holds_data(
    fs: ExtFilesystem,
    device: DeviceView,
    inode: u32,
    from: int,
    to: int,
    block: int,
) -> bool {
    exists|place: int|
        from <= place < to && #[trigger] extfs::file_block(
            fs,
            device,
            inode,
            extfs::logical_of(fs, place),
        ) == Ok::<Option<int>, ExtError>(Some(block))
}

/// Whether a device holds what another does, but for the blocks of a part of a file.
pub open spec fn same_but_data(
    fs: ExtFilesystem,
    device: DeviceView,
    other: DeviceView,
    inode: u32,
    from: int,
    to: int,
) -> bool {
    &&& other.refuses == device.refuses
    &&& other.bytes.len() == device.bytes.len()
    &&& forall|byte: int|
        0 <= byte < device.bytes.len() && #[trigger] other.bytes[byte] != device.bytes[byte]
            ==> exists|block: int|
            #![trigger within(fs, block, byte)]
            within(fs, block, byte) && holds_data(fs, device, inode, from, to, block)
}

/// The blocks of a part of a file hold nothing that says where the blocks of the file
/// are, and no two of them are the same.
pub open spec fn data_apart(
    fs: ExtFilesystem,
    device: DeviceView,
    inode: u32,
    from: int,
    to: int,
) -> bool {
    &&& forall|other: DeviceView, place: int|
        from <= place < to && same_but_data(fs, device, other, inode, from, to)
            ==> #[trigger] extfs::file_block(fs, other, inode, extfs::logical_of(fs, place))
            == extfs::file_block(fs, device, inode, extfs::logical_of(fs, place))
    &&& forall|first: int, second: int|
        from <= first < to && from <= second < to && first / fs.block_size as int != second
            / fs.block_size as int && #[trigger] extfs::file_block(
            fs,
            device,
            inode,
            extfs::logical_of(fs, first),
        ) == #[trigger] extfs::file_block(fs, device, inode, extfs::logical_of(fs, second))
            ==> !(extfs::file_block(fs, device, inode, extfs::logical_of(fs, first)) matches Ok(
            Some(_),
        ))
}

proof fn lemma_extent_block(node: Seq<u8>, logical: u32, count: int, from: int)
    ensures
        extfs::extent_block(node, logical, count, from) matches Some(block) ==> block >= 0,
    decreases count - from,
{
    if from < count && !extfs::extent_covers(node, logical, from) {
        lemma_extent_block(node, logical, count, from + 1);
    }
}

proof fn lemma_tree_block(
    fs: ExtFilesystem,
    device: DeviceView,
    node: Seq<u8>,
    size: int,
    logical: u32,
    steps: nat,
)
    ensures
        extfs::tree_block(fs, device, node, size, logical, steps) matches Ok(Some(block))
            ==> block >= 0,
    decreases steps,
{
    let entry = extfs::index_entry(node, logical, extfs::index_count(node, size));
    let at = 12 + entry * 12;
    let child = bytes::le16(node, at + 8) * 0x1_0000_0000 + bytes::le32(node, at + 4);
    lemma_extent_block(node, logical, extfs::extent_count(node), 0);
    if bytes::le16(node, 6) != 0 && entry >= 0 && steps > 0 {
        if let Ok(block) = fs.block(device, child) {
            lemma_tree_block(
                fs,
                device,
                block,
                fs.block_size as int,
                logical,
                (steps - 1) as nat,
            );
        }
    }
}

pub proof fn lemma_file_block(fs: ExtFilesystem, device: DeviceView, inode: u32, logical: u32)
    ensures
        extfs::file_block(fs, device, inode, logical) matches Ok(Some(block)) ==> block >= 0,
{
    reveal(extfs::file_block);
    if let Ok(raw) = fs.inode(device, inode) {
        if fs.kind == ExtKind::Ext4 {
            lemma_tree_block(
                fs,
                device,
                raw.subrange(40, 100),
                60,
                logical,
                fs.total_blocks as nat,
            );
        }
    }
}

/// The place behind the part of a file that lies in the block of a place.
pub proof fn lemma_next_place(fs: ExtFilesystem, place: int, remaining: int, later: int)
    requires
        fs.wf(),
        place >= 0,
        remaining > 0,
    ensures
        0 < extfs::in_block(fs, place, remaining) <= remaining,
        place % fs.block_size as int + extfs::in_block(fs, place, remaining) <= fs.block_size,
        extfs::in_block(fs, place, remaining) < remaining && later >= place + extfs::in_block(
            fs,
            place,
            remaining,
        ) ==> later / fs.block_size as int != place / fs.block_size as int,
{
    let size = fs.block_size as int;
    let next = place / size + 1;
    vstd::arithmetic::div_mod::lemma_fundamental_div_mod(place, size);
    vstd::arithmetic::div_mod::lemma_mod_bound(place, size);
    if later >= place + size - place % size {
        assert(later >= next * size) by (nonlinear_arith)
            requires
                later >= place + size - place % size,
                place == size * (place / size) + place % size,
                next == place / size + 1,
        ;
        vstd::arithmetic::div_mod::lemma_div_is_ordered(next * size, later, size);
        vstd::arithmetic::div_mod::lemma_div_by_multiple(next, size);
    }
}

/// What a block written changes and what is read of it.
proof fn lemma_block_written(
    fs: ExtFilesystem,
    device: DeviceView,
    block: int,
    data: Seq<u8>,
    at: int,
    part: Seq<u8>,
)
    requires
        fs.wf(),
        device.wf(),
        block >= 0,
        fs.block(device, block) is Ok,
        data == extfs::spliced(fs.block(device, block)->Ok_0.subrange(0, fs.block_size as int), at, part),
        0 <= at,
        at + part.len() <= fs.block_size,
        extfs::block_written(fs, device, block, data).1 is Ok,
    ensures
        ({
            let after = extfs::block_written(fs, device, block, data).0;
            &&& after.refuses == device.refuses
            &&& after.wf()
            &&& after.bytes.len() == device.bytes.len()
            &&& fs.block(after, block) is Ok
            &&& fs.block(after, block)->Ok_0.subrange(at, at + part.len()) == part
            &&& forall|byte: int|
                0 <= byte < device.bytes.len() && !within(fs, block, byte)
                    ==> #[trigger] after.bytes[byte] == device.bytes[byte]
        }),
{
    let first = block * fs.sectors();
    let size = fs.block_size as int;
    let after = extfs::block_written(fs, device, block, data).0;
    assert(first * 512 == block * size && (block + 1) * size == block * size + size) by {
        if size == 1024 {
            assert(fs.sectors() == 2);
        } else if size == 2048 {
            assert(fs.sectors() == 4);
        } else {
            assert(fs.sectors() == 8);
        }
    }
    assert(first >= 0);
    assert(after.wf()) by {
        assert forall|f: u64, length: int, write: bool|
            length >= 0 && (#[trigger] (after.refuses)(f, length, write)) is None implies f * 512
            + length <= after.bytes.len() by {
            assert((device.refuses)(f, length, write) is None);
        }
    }
    let seen = fs.block(after, block)->Ok_0;
    assert((device.refuses)(first as u64, size, false) is None);
    assert(first * 512 + size <= device.bytes.len());
    assert forall|i: int| 0 <= i < part.len() implies seen.subrange(at, at + part.len())[i]
        == part[i] by {
        assert(seen[at + i] == after.at(first, size)[at + i]);
        assert(after.at(first, size)[at + i] == after.bytes[first * 512 + at + i]);
    }
    assert(seen.subrange(at, at + part.len()) =~= part);
}

/// What is read of a block rests on its bytes alone.
proof fn lemma_block_same(fs: ExtFilesystem, first: DeviceView, second: DeviceView, block: int)
    requires
        fs.wf(),
        first.wf(),
        block >= 0,
        first.refuses == second.refuses,
        first.bytes.len() == second.bytes.len(),
        forall|byte: int|
            0 <= byte < first.bytes.len() && within(fs, block, byte) ==> #[trigger] first.bytes[byte]
                == second.bytes[byte],
    ensures
        fs.block(first, block) == fs.block(second, block),
{
    let start = block * fs.sectors();
    let size = fs.block_size as int;
    assert(start * 512 == block * size && (block + 1) * size == block * size + size) by {
        if size == 1024 {
            assert(fs.sectors() == 2);
        } else if size == 2048 {
            assert(fs.sectors() == 4);
        } else {
            assert(fs.sectors() == 8);
        }
    }
    if start <= u64::MAX && (first.refuses)(start as u64, size, false) is None {
        assert(start * 512 + size <= first.bytes.len());
        assert(first.at(start, size) =~= second.at(start, size));
    }
}

/// Two blocks have no byte in common.
proof fn lemma_blocks_apart(fs: ExtFilesystem, first: int, second: int, byte: int)
    requires
        fs.wf(),
        within(fs, first, byte),
        within(fs, second, byte),
    ensures
        first == second,
{
    let size = fs.block_size as int;
    assert(first == second) by (nonlinear_arith)
        requires
            size > 0,
            first * size <= byte < (first + 1) * size,
            second * size <= byte < (second + 1) * size,
    ;
}

proof fn lemma_data_written(
    fs: ExtFilesystem,
    start: DeviceView,
    device: DeviceView,
    inode: u32,
    offset: u64,
    input: Seq<u8>,
    done: int,
)
    requires
        fs.wf(),
        device.wf(),
        0 <= done <= input.len(),
        data_apart(fs, start, inode, offset as int, offset + input.len()),
        same_but_data(fs, start, device, inode, offset as int, offset + input.len()),
        extfs::data_written(fs, device, inode, offset as int, input, done).1 is Ok,
    ensures
        ({
            let after = extfs::data_written(fs, device, inode, offset as int, input, done).0;
            &&& after.wf()
            &&& same_but_data(fs, start, after, inode, offset as int, offset + input.len())
            &&& changed_only_from(fs, start, device, after, inode, offset + done, offset + input.len())
            &&& extfs::range_read(fs, after, inode, offset + done, input.len() - done) == Ok::<
                Seq<u8>,
                ExtError,
            >(input.subrange(done, input.len() as int))
        }),
    decreases input.len() - done,
{
    let to = offset + input.len();
    let place = offset + done;
    let remaining = input.len() - done;
    let after = extfs::data_written(fs, device, inode, offset as int, input, done).0;
    if remaining <= 0 {
        assert(input.subrange(done, input.len() as int) =~= Seq::empty());
    } else {
        let count = extfs::in_block(fs, place, remaining);
        let size = fs.block_size as int;
        let logical = extfs::logical_of(fs, place);
        lemma_next_place(fs, place, remaining, place);
        lemma_file_block(fs, device, inode, logical);
        assert(extfs::file_block(fs, device, inode, logical) == extfs::file_block(
            fs,
            start,
            inode,
            logical,
        ));
        let physical = extfs::file_block(fs, device, inode, logical)->Ok_0->Some_0;
        let part = input.subrange(done, done + count);
        let data = extfs::spliced(
            fs.block(device, physical)->Ok_0.subrange(0, size),
            place % size,
            part,
        );
        let next = extfs::block_written(fs, device, physical, data).0;
        lemma_block_written(fs, device, physical, data, place % size, part);
        assert(holds_data(fs, start, inode, offset as int, to, physical));
        assert(same_but_data(fs, start, next, inode, offset as int, to)) by {
            assert forall|byte: int|
                0 <= byte < start.bytes.len() && #[trigger] next.bytes[byte]
                    != start.bytes[byte] implies exists|block: int|
                #![trigger within(fs, block, byte)]
                within(fs, block, byte) && holds_data(
                    fs,
                    start,
                    inode,
                    offset as int,
                    to,
                    block,
                ) by {
                if within(fs, physical, byte) {
                } else {
                    assert(next.bytes[byte] == device.bytes[byte]);
                }
            }
        }
        lemma_data_written(fs, start, next, inode, offset, input, done + count);
        assert(extfs::file_block(fs, after, inode, logical) == extfs::file_block(
            fs,
            start,
            inode,
            logical,
        ));
        assert forall|byte: int| 0 <= byte < after.bytes.len() && within(fs, physical, byte) implies
            #[trigger] after.bytes[byte] == next.bytes[byte] by {
            if after.bytes[byte] != next.bytes[byte] {
                let block = choose|block: int|
                    #![trigger within(fs, block, byte)]
                    within(fs, block, byte) && holds_data(
                        fs,
                        start,
                        inode,
                        place + count,
                        to,
                        block,
                    );
                lemma_blocks_apart(fs, block, physical, byte);
                let later = choose|later: int|
                    place + count <= later < to && #[trigger] extfs::file_block(
                        fs,
                        start,
                        inode,
                        extfs::logical_of(fs, later),
                    ) == Ok::<Option<int>, ExtError>(Some(block));
                lemma_next_place(fs, place, remaining, later);
            }
        }
        lemma_block_same(fs, after, next, physical);
        assert(extfs::part_read(fs, after, inode, place, count) == Ok::<Seq<u8>, ExtError>(part));
        assert(part + input.subrange(done + count, input.len() as int) =~= input.subrange(
            done,
            input.len() as int,
        ));
        assert(changed_only_from(fs, start, device, after, inode, place, to)) by {
            assert forall|byte: int|
                0 <= byte < device.bytes.len() && #[trigger] after.bytes[byte]
                    != device.bytes[byte] implies exists|block: int|
                #![trigger within(fs, block, byte)]
                within(fs, block, byte) && holds_data(fs, start, inode, place, to, block) by {
                if within(fs, physical, byte) {
                    assert(holds_data(fs, start, inode, place, to, physical));
                } else {
                    assert(next.bytes[byte] == device.bytes[byte]);
                    let block = choose|block: int|
                        #![trigger within(fs, block, byte)]
                        within(fs, block, byte) && holds_data(
                            fs,
                            start,
                            inode,
                            place + count,
                            to,
                            block,
                        );
                    assert(holds_data(fs, start, inode, place, to, block));
                }
            }
        }
    }
}

/// Whether a device holds what another does, but for the blocks that a third gives to a
/// part of a file.
spec fn changed_only_from(
    fs: ExtFilesystem,
    start: DeviceView,
    before: DeviceView,
    after: DeviceView,
    inode: u32,
    from: int,
    to: int,
) -> bool {
    &&& after.refuses == before.refuses
    &&& after.bytes.len() == before.bytes.len()
    &&& forall|byte: int|
        0 <= byte < before.bytes.len() && #[trigger] after.bytes[byte] != before.bytes[byte]
            ==> exists|block: int|
            #![trigger within(fs, block, byte)]
            within(fs, block, byte) && holds_data(fs, start, inode, from, to, block)
}

/// What is written to the blocks of a file is read back from them, and nothing but these
/// blocks changes, where the blocks hold nothing that says where they are and no two of
/// them are the same.
pub proof fn law_written_data_is_read(
    fs: ExtFilesystem,
    device: DeviceView,
    inode: u32,
    offset: u64,
    input: Seq<u8>,
)
    requires
        fs.wf(),
        device.wf(),
        data_apart(fs, device, inode, offset as int, offset + input.len()),
        extfs::data_written(fs, device, inode, offset as int, input, 0).1 is Ok,
    ensures
        extfs::range_read(
            fs,
            extfs::data_written(fs, device, inode, offset as int, input, 0).0,
            inode,
            offset as int,
            input.len() as int,
        ) == Ok::<Seq<u8>, ExtError>(input),
        same_but_data(
            fs,
            device,
            extfs::data_written(fs, device, inode, offset as int, input, 0).0,
            inode,
            offset as int,
            offset + input.len(),
        ),
{
    lemma_data_written(fs, device, device, inode, offset, input, 0);
    assert(input.subrange(0, input.len() as int) =~= input);
}

/// A device that was made to keep what was written is in order as before.
pub proof fn lemma_keeping_wf(device: DeviceView)
    requires
        device.wf(),
    ensures
        device.keeping().wf(),
{
    let after = device.keeping();
    assert forall|f: u64, length: int, write: bool|
        length >= 0 && (#[trigger] (after.refuses)(f, length, write)) is None implies f * 512
        + length <= after.bytes.len() by {
        assert((device.refuses)(f, length, write) is None);
    }
}

/// Where the bytes of an inode begin on the device.
pub open spec fn inode_start(fs: ExtFilesystem, device: DeviceView, inode: u32) -> int {
    let (block, within) = fs.inode_place(device, inode)->Ok_0;
    block * fs.block_size + within
}

/// Whether a byte of the device holds the state of the file system.
pub open spec fn is_state(byte: int) -> bool {
    1082 <= byte < 1084
}

/// Whether a byte of the device holds the size of a file.
pub open spec fn is_size(fs: ExtFilesystem, device: DeviceView, inode: u32, byte: int) -> bool {
    let at = byte - inode_start(fs, device, inode);
    4 <= at < 8 || 108 <= at < 112
}

/// Whether a byte of the device belongs to the blocks of a part of a file.
pub open spec fn is_data(
    fs: ExtFilesystem,
    device: DeviceView,
    inode: u32,
    from: int,
    to: int,
    byte: int,
) -> bool {
    exists|block: int|
        #![trigger within(fs, block, byte)]
        within(fs, block, byte) && holds_data(fs, device, inode, from, to, block)
}

/// Whether a device holds what another does, but for the state of the file system, the size
/// of a file, and the blocks of a part of the file.
pub open spec fn same_but_file(
    fs: ExtFilesystem,
    device: DeviceView,
    other: DeviceView,
    inode: u32,
    from: int,
    to: int,
) -> bool {
    &&& other.refuses == device.refuses
    &&& other.bytes.len() == device.bytes.len()
    &&& forall|byte: int|
        0 <= byte < device.bytes.len() && #[trigger] other.bytes[byte] != device.bytes[byte]
            ==> is_state(byte) || is_size(fs, device, inode, byte) || is_data(
            fs,
            device,
            inode,
            from,
            to,
            byte,
        )
}

/// What leads to a file and to its blocks is kept apart from what a write to a part of it
/// changes: neither the state of the file system, nor the size of the file, nor a block of
/// that part says where the path leads, where the inode is or where those blocks are; the
/// inode holds nothing of the others; and no two blocks of that part are the same.
pub open spec fn file_apart(
    fs: ExtFilesystem,
    device: DeviceView,
    path: Seq<u8>,
    inode: u32,
    from: int,
    to: int,
) -> bool {
    &&& forall|other: DeviceView| #[trigger]
        same_but_file(fs, device, other, inode, from, to) ==> extfs::looked_up(fs, other, path)
            == extfs::looked_up(fs, device, path) && fs.inode_place(other, inode)
            == fs.inode_place(device, inode)
    &&& forall|other: DeviceView, place: int|
        from <= place < to && same_but_file(fs, device, other, inode, from, to)
            ==> #[trigger] extfs::file_block(fs, other, inode, extfs::logical_of(fs, place))
            == extfs::file_block(fs, device, inode, extfs::logical_of(fs, place))
    &&& forall|byte: int|
        inode_start(fs, device, inode) <= byte < inode_start(fs, device, inode) + fs.inode_size
            ==> !is_state(byte) && !#[trigger] is_data(fs, device, inode, from, to, byte)
    &&& forall|first: int, second: int|
        from <= first < to && from <= second < to && first / fs.block_size as int != second
            / fs.block_size as int && #[trigger] extfs::file_block(
            fs,
            device,
            inode,
            extfs::logical_of(fs, first),
        ) == #[trigger] extfs::file_block(fs, device, inode, extfs::logical_of(fs, second))
            ==> !(extfs::file_block(fs, device, inode, extfs::logical_of(fs, first)) matches Ok(
            Some(_),
        ))
}

/// The first bytes of an inode lie on the device one behind the other.
pub proof fn lemma_inode_byte(fs: ExtFilesystem, device: DeviceView, inode: u32, k: int)
    requires
        fs.wf(),
        device.wf(),
        fs.inode(device, inode) is Ok,
        0 <= k < 128,
    ensures
        0 <= inode_start(fs, device, inode) + k < device.bytes.len(),
        fs.inode(device, inode)->Ok_0[k] == device.bytes[inode_start(fs, device, inode) + k],
        inode_start(fs, device, inode) >= 0,
{
    let (block, within) = fs.inode_place(device, inode)->Ok_0;
    let size = fs.block_size as int;
    let part = fs.inode_part(within);
    lemma_sectors(fs, block);
    lemma_sectors(fs, block + 1);
    lemma_inode_place(fs, device, inode);
    let start = block * fs.sectors();
    assert((device.refuses)(start as u64, size, false) is None);
    assert(start * 512 + size <= device.bytes.len());
    if k < part {
        assert(device.at(start, size)[within + k] == device.bytes[start * 512 + within + k]);
    } else {
        let next = (block + 1) * fs.sectors();
        assert((device.refuses)(next as u64, size, false) is None);
        assert(next * 512 + size <= device.bytes.len());
        assert(device.at(next, size)[k - part] == device.bytes[next * 512 + k - part]);
    }
}

pub proof fn lemma_sectors(fs: ExtFilesystem, block: int)
    requires
        fs.wf(),
    ensures
        block * fs.sectors() * 512 == block * fs.block_size,
        (block + 1) * fs.block_size == block * fs.block_size + fs.block_size,
        block >= 0 ==> block * fs.sectors() >= 0,
{
    let size = fs.block_size as int;
    if size == 1024 {
        assert(fs.sectors() == 2);
    } else if size == 2048 {
        assert(fs.sectors() == 4);
    } else {
        assert(fs.sectors() == 8);
    }
}

pub proof fn lemma_inode_place(fs: ExtFilesystem, device: DeviceView, inode: u32)
    requires
        fs.wf(),
    ensures
        fs.inode_place(device, inode) matches Ok((block, within)) ==> block >= 0 && 0 <= within
            < fs.block_size,
{
    let offset = (inode - 1) % fs.inodes_per_group as int * fs.inode_size;
    if inode > 0 {
        vstd::arithmetic::div_mod::lemma_mod_bound(inode - 1, fs.inodes_per_group as int);
        assert(offset >= 0) by (nonlinear_arith)
            requires
                offset == (inode - 1) % fs.inodes_per_group as int * fs.inode_size,
                (inode - 1) % fs.inodes_per_group as int >= 0,
                fs.inode_size >= 0,
        ;
        vstd::arithmetic::div_mod::lemma_mod_bound(offset, fs.block_size as int);
        vstd::arithmetic::div_mod::lemma_div_pos_is_pos(offset, fs.block_size as int);
    }
}

/// An inode rests on its place and its bytes alone.
proof fn lemma_inode_same(
    fs: ExtFilesystem,
    first: DeviceView,
    second: DeviceView,
    inode: u32,
)
    requires
        fs.wf(),
        first.wf(),
        first.refuses == second.refuses,
        first.bytes.len() == second.bytes.len(),
        fs.inode_place(first, inode) == fs.inode_place(second, inode),
        forall|byte: int|
            0 <= byte < first.bytes.len() && inode_start(fs, first, inode) <= byte < inode_start(
                fs,
                first,
                inode,
            ) + fs.inode_size ==> #[trigger] first.bytes[byte] == second.bytes[byte],
    ensures
        fs.inode(first, inode) == fs.inode(second, inode),
{
    lemma_inode_place(fs, first, inode);
    if let Ok((block, within)) = fs.inode_place(first, inode) {
        let size = fs.block_size as int;
        let part = fs.inode_part(within);
        lemma_sectors(fs, block);
        lemma_sectors(fs, block + 1);
        let start = block * fs.sectors();
        let next = (block + 1) * fs.sectors();
        if fs.block(first, block) is Ok {
            assert((first.refuses)(start as u64, size, false) is None);
            assert(start * 512 + size <= first.bytes.len());
            let one = fs.block(first, block)->Ok_0;
            let other = fs.block(second, block)->Ok_0;
            let left = one.subrange(within, within + part);
            let right = other.subrange(within, within + part);
            assert(left =~= right) by {
                assert forall|i: int| 0 <= i < part implies #[trigger] left[i] == right[i] by {
                    assert(first.at(start, size)[within + i] == first.bytes[start * 512 + within
                        + i]);
                    assert(second.at(start, size)[within + i] == second.bytes[start * 512 + within
                        + i]);
                }
            }
            if part < fs.inode_size && fs.block(first, block + 1) is Ok {
                assert((first.refuses)(next as u64, size, false) is None);
                assert(next * 512 + size <= first.bytes.len());
                let rest = fs.inode_size - part;
                let one = fs.block(first, block + 1)->Ok_0;
                let other = fs.block(second, block + 1)->Ok_0;
                let left = one.subrange(0, rest);
                let right = other.subrange(0, rest);
                assert(left =~= right) by {
                    assert forall|i: int| 0 <= i < rest implies #[trigger] left[i] == right[i] by {
                        if i < size {
                            assert(first.at(next, size)[i] == first.bytes[next * 512 + i]);
                            assert(second.at(next, size)[i] == second.bytes[next * 512 + i]);
                        }
                    }
                }
            }
        }
    }
}

/// Setting the state changes nothing but the state.
proof fn lemma_state_set(device: DeviceView, state: u16)
    requires
        device.wf(),
        extfs::state_set(device, state).1 is Ok,
    ensures
        ({
            let after = extfs::state_set(device, state).0;
            &&& after.refuses == device.refuses
            &&& after.flush_refuses == device.flush_refuses
            &&& after.wf()
            &&& after.bytes.len() == device.bytes.len()
            &&& forall|byte: int|
                0 <= byte < device.bytes.len() && !is_state(byte)
                    ==> #[trigger] after.bytes[byte] == device.bytes[byte]
        }),
{
    let after = extfs::state_set(device, state).0;
    let block = device.at(2, 1024);
    assert((device.refuses)(2, 1024, false) is None);
    assert(after.wf()) by {
        assert forall|f: u64, length: int, write: bool|
            length >= 0 && (#[trigger] (after.refuses)(f, length, write)) is None implies f * 512
            + length <= after.bytes.len() by {
            assert((device.refuses)(f, length, write) is None);
        }
    }
    assert forall|byte: int| 0 <= byte < device.bytes.len() && !is_state(byte) implies
        #[trigger] after.bytes[byte] == device.bytes[byte] by {
        if 1024 <= byte < 2048 {
            assert(block[byte - 1024] == device.bytes[byte]);
        }
    }
}

/// What a device holds after a part of a block was written.
proof fn lemma_block_spliced(
    fs: ExtFilesystem,
    device: DeviceView,
    block: int,
    at: int,
    part: Seq<u8>,
)
    requires
        fs.wf(),
        device.wf(),
        block >= 0,
        fs.block(device, block) is Ok,
        0 <= at,
        ({
            let data = extfs::spliced(
                fs.block(device, block)->Ok_0.subrange(0, fs.block_size as int),
                at,
                part,
            );
            extfs::block_written(fs, device, block, data).1 is Ok
        }),
    ensures
        ({
            let data = extfs::spliced(
                fs.block(device, block)->Ok_0.subrange(0, fs.block_size as int),
                at,
                part,
            );
            let after = extfs::block_written(fs, device, block, data).0;
            let start = block * fs.block_size;
            &&& after.refuses == device.refuses
            &&& after.flush_refuses == device.flush_refuses
            &&& after.wf()
            &&& after.bytes.len() == device.bytes.len()
            &&& start + fs.block_size <= device.bytes.len()
            &&& forall|byte: int|
                0 <= byte < device.bytes.len() ==> #[trigger] after.bytes[byte] == (if start
                    <= byte < start + fs.block_size && at <= byte - start < at + part.len() {
                    part[byte - start - at]
                } else {
                    device.bytes[byte]
                })
        }),
{
    let size = fs.block_size as int;
    let whole = fs.block(device, block)->Ok_0;
    let data = extfs::spliced(whole.subrange(0, size), at, part);
    let after = extfs::block_written(fs, device, block, data).0;
    let first = block * fs.sectors();
    let start = block * size;
    lemma_sectors(fs, block);
    assert((device.refuses)(first as u64, size, false) is None);
    assert(first * 512 + size <= device.bytes.len());
    assert(after.wf()) by {
        assert forall|f: u64, length: int, write: bool|
            length >= 0 && (#[trigger] (after.refuses)(f, length, write)) is None implies f * 512
            + length <= after.bytes.len() by {
            assert((device.refuses)(f, length, write) is None);
        }
    }
    assert forall|byte: int| 0 <= byte < device.bytes.len() implies #[trigger] after.bytes[byte]
        == (if start <= byte < start + size && at <= byte - start < at + part.len() {
        part[byte - start - at]
    } else {
        device.bytes[byte]
    }) by {
        if start <= byte < start + size {
            assert(device.at(first, size)[byte - start] == device.bytes[byte]);
            assert(whole[byte - start] == device.bytes[byte]);
        }
    }
}

/// The four bytes at an offset among those of the size.
pub open spec fn size_byte(size: u64, k: int) -> u8 {
    if k < 8 {
        extfs::bytes32((size % 0x1_0000_0000) as u32)[k - 4]
    } else {
        extfs::bytes32((size / 0x1_0000_0000) as u32)[k - 108]
    }
}

/// Setting the size of a file changes nothing but the size.
#[verifier::spinoff_prover]
proof fn lemma_size_set(fs: ExtFilesystem, device: DeviceView, inode: u32, size: u64)
    requires
        fs.wf(),
        device.wf(),
        extfs::size_set(fs, device, inode, size).1 is Ok,
    ensures
        ({
            let after = extfs::size_set(fs, device, inode, size).0;
            &&& after.refuses == device.refuses
            &&& after.flush_refuses == device.flush_refuses
            &&& after.wf()
            &&& after.bytes.len() == device.bytes.len()
            &&& forall|byte: int|
                0 <= byte < device.bytes.len() ==> #[trigger] after.bytes[byte] == (if is_size(
                    fs,
                    device,
                    inode,
                    byte,
                ) {
                    size_byte(size, byte - inode_start(fs, device, inode))
                } else {
                    device.bytes[byte]
                })
        }),
{
    let raw = fs.inode(device, inode)->Ok_0;
    let (block, within) = fs.inode_place(device, inode)->Ok_0;
    let wide = fs.block_size as int;
    let part = fs.inode_part(within);
    let start = block * wide;
    let changed = extfs::spliced(
        extfs::spliced(raw, 4, extfs::bytes32((size % 0x1_0000_0000) as u32)),
        108,
        extfs::bytes32((size / 0x1_0000_0000) as u32),
    );
    lemma_inode_place(fs, device, inode);
    lemma_sectors(fs, block);
    lemma_sectors(fs, block + 1);
    assert(raw.len() == 4096);
    let first = fs.block(device, block)->Ok_0;
    let front = changed.subrange(0, part);
    lemma_block_spliced(fs, device, block, within, front);
    let middle = extfs::block_written(
        fs,
        device,
        block,
        extfs::spliced(first.subrange(0, wide), within, front),
    ).0;
    let one = block * fs.sectors();
    assert((device.refuses)(one as u64, wide, false) is None);
    assert forall|k: int| 0 <= k < part implies #[trigger] raw[k] == device.bytes[start + within
        + k] by {
        assert(device.at(one, wide)[within + k] == device.bytes[start + within + k]);
        assert(first[within + k] == device.bytes[start + within + k]);
    }
    assert forall|byte: int| 0 <= byte < device.bytes.len() && byte < start + wide implies
        #[trigger] middle.bytes[byte] == (if is_size(fs, device, inode, byte) {
        size_byte(size, byte - inode_start(fs, device, inode))
    } else {
        device.bytes[byte]
    }) by {
        let k = byte - start - within;
        if start <= byte && 0 <= k < part {
            assert(front[k] == changed[k]);
            assert(raw[k] == device.bytes[start + within + k]);
        }
    }
    if part < fs.inode_size {
        let two = (block + 1) * fs.sectors();
        let second = fs.block(middle, block + 1)->Ok_0;
        let back = changed.subrange(part, fs.inode_size as int);
        lemma_block_spliced(fs, middle, block + 1, 0, back);
        let after = extfs::block_written(
            fs,
            middle,
            block + 1,
            extfs::spliced(second.subrange(0, wide), 0, back),
        ).0;
        assert((device.refuses)(two as u64, wide, false) is None);
        assert(fs.block(device, block + 1) is Ok);
        let seen = fs.block(device, block + 1)->Ok_0;
        assert forall|k: int|
            part <= k < fs.inode_size && k - part < wide implies #[trigger] raw[k]
            == device.bytes[start + within + k] by {
            assert(device.at(two, wide)[k - part] == device.bytes[start + wide + k - part]);
            assert(seen[k - part] == device.bytes[start + wide + k - part]);
        }
        assert forall|byte: int| 0 <= byte < device.bytes.len() implies #[trigger] after.bytes[byte]
            == (if is_size(fs, device, inode, byte) {
            size_byte(size, byte - inode_start(fs, device, inode))
        } else {
            device.bytes[byte]
        }) by {
            let k = byte - start - within;
            assert(middle.bytes[byte] == middle.bytes[byte]);
            if start + wide <= byte < start + wide + wide && k < fs.inode_size {
                assert(back[k - part] == changed[k]);
                assert(raw[k] == device.bytes[start + within + k]);
            }
        }
    }
}

/// What is read of a part of a file rests on where its blocks are and on what they hold.
proof fn lemma_range_same(
    fs: ExtFilesystem,
    start: DeviceView,
    first: DeviceView,
    second: DeviceView,
    inode: u32,
    from: int,
    to: int,
    place: int,
)
    requires
        fs.wf(),
        first.wf(),
        0 <= from <= place <= to,
        first.refuses == second.refuses,
        first.bytes.len() == second.bytes.len(),
        forall|spot: int|
            from <= spot < to ==> #[trigger] extfs::file_block(
                fs,
                first,
                inode,
                extfs::logical_of(fs, spot),
            ) == extfs::file_block(fs, start, inode, extfs::logical_of(fs, spot)),
        forall|spot: int|
            from <= spot < to ==> #[trigger] extfs::file_block(
                fs,
                second,
                inode,
                extfs::logical_of(fs, spot),
            ) == extfs::file_block(fs, start, inode, extfs::logical_of(fs, spot)),
        forall|byte: int|
            0 <= byte < first.bytes.len() && is_data(fs, start, inode, from, to, byte)
                ==> #[trigger] first.bytes[byte] == second.bytes[byte],
    ensures
        extfs::range_read(fs, first, inode, place, to - place) == extfs::range_read(
            fs,
            second,
            inode,
            place,
            to - place,
        ),
    decreases to - place,
{
    if place < to {
        let count = extfs::in_block(fs, place, to - place);
        let logical = extfs::logical_of(fs, place);
        lemma_next_place(fs, place, to - place, to);
        lemma_file_block(fs, start, inode, logical);
        assert(extfs::file_block(fs, first, inode, logical) == extfs::file_block(
            fs,
            second,
            inode,
            logical,
        ));
        if let Ok(Some(physical)) = extfs::file_block(fs, start, inode, logical) {
            assert(holds_data(fs, start, inode, from, to, physical));
            assert forall|byte: int|
                0 <= byte < first.bytes.len() && within(
                    fs,
                    physical,
                    byte,
                ) implies #[trigger] first.bytes[byte] == second.bytes[byte] by {
                assert(is_data(fs, start, inode, from, to, byte));
            }
            lemma_block_same(fs, first, second, physical);
        }
        lemma_range_same(fs, start, first, second, inode, from, to, place + count);
    }
}

proof fn lemma_bytes32(value: u32)
    ensures
        ({
            let bytes = extfs::bytes32(value);
            bytes[0] + bytes[1] * 0x100 + bytes[2] * 0x1_0000 + bytes[3] * 0x100_0000 == value
        }),
{
}

/// What an inode says once the size of its file was set.
proof fn lemma_stat_grown(
    fs: ExtFilesystem,
    device: DeviceView,
    after: DeviceView,
    inode: u32,
    size: u64,
)
    requires
        fs.wf(),
        device.wf(),
        extfs::size_set(fs, device, inode, size).1 is Ok,
        after == extfs::size_set(fs, device, inode, size).0,
        fs.inode_place(after, inode) == fs.inode_place(device, inode),
        fs.stat_of(device, inode) matches Ok(stat) && stat.kind == ExtFileKind::Regular,
    ensures
        fs.stat_of(after, inode) matches Ok(stat) && stat.kind == ExtFileKind::Regular && stat.size
            == size,
{
    lemma_size_set(fs, device, inode, size);
    lemma_inode_place(fs, device, inode);
    let raw = fs.inode(device, inode)->Ok_0;
    let (block, within) = fs.inode_place(device, inode)->Ok_0;
    assert(fs.inode(after, inode) is Ok);
    let grown = fs.inode(after, inode)->Ok_0;
    let start = inode_start(fs, device, inode);
    assert forall|k: int| 0 <= k < 128 implies #[trigger] grown[k] == (if 4 <= k < 8 || 108 <= k
        < 112 {
        size_byte(size, k)
    } else {
        raw[k]
    }) by {
        lemma_inode_byte(fs, device, inode, k);
        lemma_inode_byte(fs, after, inode, k);
        assert(after.bytes[start + k] == grown[k]);
    }
    assert(grown[0] == raw[0] && grown[1] == raw[1]);
    lemma_bytes32((size % 0x1_0000_0000) as u32);
    lemma_bytes32((size / 0x1_0000_0000) as u32);
    assert(bytes::le32(grown, 4) == size % 0x1_0000_0000);
    assert(bytes::le32(grown, 108) == size / 0x1_0000_0000);
}

/// The file system as a write leaves it: marked as not clean.
pub open spec fn marked(fs: ExtFilesystem) -> ExtFilesystem {
    ExtFilesystem { dirty: true, ..fs }
}

/// Once the blocks of a part of a file hold what was written, the size is set where the file
/// grew, and all is kept, that part is read as it was written.
#[verifier::spinoff_prover]
#[verifier::rlimit(40)]
proof fn lemma_part_is_read(
    now: ExtFilesystem,
    device: DeviceView,
    filled: DeviceView,
    path: Seq<u8>,
    inode: u32,
    offset: u64,
    input: Seq<u8>,
)
    requires
        now.wf(),
        device.wf(),
        filled.wf(),
        offset + input.len() <= u64::MAX,
        extfs::looked_up(now, device, path) == Ok::<u32, ExtError>(inode),
        now.stat_of(device, inode) matches Ok(stat) && stat.kind == ExtFileKind::Regular,
        file_apart(now, device, path, inode, offset as int, offset + input.len()),
        same_but_state(now, device, filled, inode, offset as int, offset + input.len()),
        extfs::range_read(now, filled, inode, offset as int, input.len() as int) == Ok::<
            Seq<u8>,
            ExtError,
        >(input),
        offset + input.len() > now.stat_of(device, inode)->Ok_0.size ==> extfs::size_set(
            now,
            filled,
            inode,
            (offset + input.len()) as u64,
        ).1 is Ok,
    ensures
        extfs::file_read(
            now,
            (if offset + input.len() > now.stat_of(device, inode)->Ok_0.size {
                extfs::size_set(now, filled, inode, (offset + input.len()) as u64).0
            } else {
                filled
            }).keeping(),
            path,
            offset,
            input.len() as int,
        ) == Ok::<Seq<u8>, ExtError>(input),
{
    reveal(extfs::file_read);
    let from = offset as int;
    let to = offset + input.len();
    let stat = now.stat_of(device, inode)->Ok_0;
    lemma_inode_kept(now, device, filled, path, inode, from, to);
    let last = if to > stat.size {
        extfs::size_set(now, filled, inode, to as u64).0
    } else {
        filled
    };
    if to > stat.size {
        lemma_size_set(now, filled, inode, to as u64);
        assert(inode_start(now, filled, inode) == inode_start(now, device, inode));
        assert(same_but_file(now, device, last, inode, from, to)) by {
            assert forall|byte: int|
                0 <= byte < device.bytes.len() && #[trigger] last.bytes[byte]
                    != device.bytes[byte] implies is_state(byte) || is_size(
                now,
                device,
                inode,
                byte,
            ) || is_data(now, device, inode, from, to, byte) by {
                if !is_size(now, device, inode, byte) {
                    assert(last.bytes[byte] == filled.bytes[byte]);
                }
            }
        }
        lemma_stat_grown(now, filled, last, inode, to as u64);
        assert forall|byte: int|
            0 <= byte < filled.bytes.len() && is_data(
                now,
                device,
                inode,
                from,
                to,
                byte,
            ) implies #[trigger] filled.bytes[byte] == last.bytes[byte] by {
            if is_size(now, device, inode, byte) {
                assert(!is_data(now, device, inode, from, to, byte));
            }
        }
    }
    let end = last.keeping();
    lemma_keeping_wf(last);
    assert(same_but_file(now, device, last, inode, from, to));
    assert(same_but_file(now, device, end, inode, from, to));
    lemma_inode_same(now, last, end, inode);
    lemma_range_same(now, device, filled, end, inode, from, to, from);
    assert(extfs::looked_up(now, end, path) == Ok::<u32, ExtError>(inode));
    assert(now.stat_of(end, inode) is Ok);
    assert(now.stat_of(end, inode)->Ok_0.size >= to);
    assert(extfs::readable(now.stat_of(end, inode)->Ok_0.size, offset, input.len() as int)
        == input.len());
}

/// What is written to a file is read back from it: a write to a regular file that succeeds
/// has written all of its input, and reading as much from the same offset then gives the
/// input, whether or not the file grew. What leads to the file must be apart from what the
/// write changes.
#[verifier::spinoff_prover]
#[verifier::rlimit(40)]
pub proof fn law_written_file_is_read(
    fs: ExtFilesystem,
    device: DeviceView,
    path: Seq<u8>,
    inode: u32,
    offset: u64,
    input: Seq<u8>,
)
    requires
        fs.wf(),
        device.wf(),
        input.len() <= usize::MAX,
        extfs::looked_up(marked(fs), device, path) == Ok::<u32, ExtError>(inode),
        marked(fs).stat_of(device, inode) matches Ok(stat) && stat.kind == ExtFileKind::Regular,
        file_apart(marked(fs), device, path, inode, offset as int, offset + input.len()),
        extfs::file_written(fs, device, path, offset, input).2 is Ok,
    ensures
        extfs::file_written(fs, device, path, offset, input).0 == marked(fs),
        extfs::file_written(fs, device, path, offset, input).2 == Ok::<usize, ExtError>(
            input.len() as usize,
        ),
        extfs::file_read(
            marked(fs),
            extfs::file_written(fs, device, path, offset, input).1,
            path,
            offset,
            input.len() as int,
        ) == Ok::<Seq<u8>, ExtError>(input),
{
    reveal(extfs::file_written);
    reveal(extfs::file_read);
    let now = marked(fs);
    let from = offset as int;
    let to = offset + input.len();
    let begun = extfs::dirtied(fs, device).1;
    if !fs.dirty {
        lemma_state_set(device, extfs::EXT_ERROR_FS);
        lemma_keeping_wf(extfs::state_set(device, extfs::EXT_ERROR_FS).0);
    }
    assert(same_but_state(now, device, begun, inode, from, to));
    lemma_inode_kept(now, device, begun, path, inode, from, to);
    let stat = now.stat_of(begun, inode)->Ok_0;
    lemma_data_apart(now, device, begun, path, inode, from, to);
    lemma_data_written(now, begun, begun, inode, offset, input, 0);
    assert(input.subrange(0, input.len() as int) =~= input);
    let filled = extfs::data_written(now, begun, inode, from, input, 0).0;
    assert(same_but_state(now, device, filled, inode, from, to));
    lemma_inode_kept(now, device, filled, path, inode, from, to);
    assert(stat.inode == inode);
    lemma_part_is_read(now, device, filled, path, inode, offset, input);
}

/// Whether a device holds what another does, but for the state of the file system and the
/// blocks of a part of a file.
spec fn same_but_state(
    fs: ExtFilesystem,
    device: DeviceView,
    other: DeviceView,
    inode: u32,
    from: int,
    to: int,
) -> bool {
    &&& other.refuses == device.refuses
    &&& other.bytes.len() == device.bytes.len()
    &&& forall|byte: int|
        0 <= byte < device.bytes.len() && #[trigger] other.bytes[byte] != device.bytes[byte]
            ==> is_state(byte) || is_data(fs, device, inode, from, to, byte)
}

/// As long as the size is not set, an inode is what it was before a write to its file.
proof fn lemma_inode_kept(
    fs: ExtFilesystem,
    device: DeviceView,
    other: DeviceView,
    path: Seq<u8>,
    inode: u32,
    from: int,
    to: int,
)
    requires
        fs.wf(),
        device.wf(),
        file_apart(fs, device, path, inode, from, to),
        same_but_state(fs, device, other, inode, from, to),
    ensures
        same_but_file(fs, device, other, inode, from, to),
        fs.inode_place(other, inode) == fs.inode_place(device, inode),
        fs.inode(other, inode) == fs.inode(device, inode),
{
    assert(same_but_file(fs, device, other, inode, from, to));
    let start = inode_start(fs, device, inode);
    assert forall|byte: int|
        0 <= byte < device.bytes.len() && start <= byte < start
            + fs.inode_size implies #[trigger] device.bytes[byte] == other.bytes[byte] by {
        assert(!is_data(fs, device, inode, from, to, byte));
        if other.bytes[byte] != device.bytes[byte] {
            assert(is_state(byte));
        }
    }
    lemma_inode_same(fs, device, other, inode);
}

/// What is apart stays so once the state is set.
proof fn lemma_data_apart(
    fs: ExtFilesystem,
    device: DeviceView,
    begun: DeviceView,
    path: Seq<u8>,
    inode: u32,
    from: int,
    to: int,
)
    requires
        file_apart(fs, device, path, inode, from, to),
        same_but_state(fs, device, begun, inode, from, to),
    ensures
        data_apart(fs, begun, inode, from, to),
        forall|other: DeviceView|
            same_but_data(fs, begun, other, inode, from, to) ==> #[trigger] same_but_state(
                fs,
                device,
                other,
                inode,
                from,
                to,
            ),
{
    assert(same_but_file(fs, device, begun, inode, from, to));
    assert forall|other: DeviceView|
        same_but_data(fs, begun, other, inode, from, to) implies #[trigger] same_but_state(
        fs,
        device,
        other,
        inode,
        from,
        to,
    ) by {
        assert forall|byte: int|
            0 <= byte < device.bytes.len() && #[trigger] other.bytes[byte]
                != device.bytes[byte] implies is_state(byte) || is_data(
            fs,
            device,
            inode,
            from,
            to,
            byte,
        ) by {
            if other.bytes[byte] != begun.bytes[byte] {
                let block = choose|block: int|
                    #![trigger within(fs, block, byte)]
                    within(fs, block, byte) && holds_data(fs, begun, inode, from, to, block);
                lemma_holds_same(fs, device, begun, inode, from, to, block);
            } else {
                assert(begun.bytes[byte] != device.bytes[byte]);
            }
        }
    }
    assert forall|other: DeviceView, place: int|
        from <= place < to && same_but_data(
            fs,
            begun,
            other,
            inode,
            from,
            to,
        ) implies #[trigger] extfs::file_block(fs, other, inode, extfs::logical_of(fs, place))
        == extfs::file_block(fs, begun, inode, extfs::logical_of(fs, place)) by {
        assert(same_but_state(fs, device, other, inode, from, to));
        assert(same_but_file(fs, device, other, inode, from, to));
    }
}

proof fn lemma_holds_same(
    fs: ExtFilesystem,
    first: DeviceView,
    second: DeviceView,
    inode: u32,
    from: int,
    to: int,
    block: int,
)
    requires
        forall|spot: int|
            from <= spot < to ==> #[trigger] extfs::file_block(
                fs,
                second,
                inode,
                extfs::logical_of(fs, spot),
            ) == extfs::file_block(fs, first, inode, extfs::logical_of(fs, spot)),
    ensures
        holds_data(fs, second, inode, from, to, block) == holds_data(
            fs,
            first,
            inode,
            from,
            to,
            block,
        ),
{
    if holds_data(fs, second, inode, from, to, block) {
        let place = choose|place: int|
            from <= place < to && #[trigger] extfs::file_block(
                fs,
                second,
                inode,
                extfs::logical_of(fs, place),
            ) == Ok::<Option<int>, ExtError>(Some(block));
        assert(extfs::file_block(fs, first, inode, extfs::logical_of(fs, place)) == Ok::<
            Option<int>,
            ExtError,
        >(Some(block)));
    }
    if holds_data(fs, first, inode, from, to, block) {
        let place = choose|place: int|
            from <= place < to && #[trigger] extfs::file_block(
                fs,
                first,
                inode,
                extfs::logical_of(fs, place),
            ) == Ok::<Option<int>, ExtError>(Some(block));
        assert(extfs::file_block(fs, second, inode, extfs::logical_of(fs, place)) == Ok::<
            Option<int>,
            ExtError,
        >(Some(block)));
    }
}

/// A file system that may only be read changes nothing on its device.
pub proof fn law_read_only_changes_nothing(
    fs: ExtFilesystem,
    device: DeviceView,
    path: Seq<u8>,
    offset: u64,
    input: Seq<u8>,
)
    requires
        fs.read_only,
    ensures
        extfs::file_written(fs, device, path, offset, input) == (
            fs,
            device,
            Err::<usize, ExtError>(ExtError::ReadOnly),
        ),
        extfs::recovered(fs, device).1 == device,
{
    reveal(extfs::file_written);
}

/// A file system whose state was set is found in that state, and is otherwise what it was.
proof fn lemma_state_mounted(device: DeviceView, state: u16)
    requires
        device.wf(),
        extfs::state_set(device, state).1 is Ok,
    ensures
        extfs::mounted(extfs::state_set(device, state).0.at(2, 1024)) == (match extfs::mounted(
            device.at(2, 1024),
        ) {
            Ok(found) => Ok::<ExtFilesystem, ExtError>(
                ExtFilesystem { dirty: state != extfs::EXT_VALID_FS, ..found },
            ),
            Err(error) => Err(error),
        }),
{
    let after = extfs::state_set(device, state).0;
    let before = device.at(2, 1024);
    let changed = extfs::spliced(before, 58, extfs::bytes16(state));
    assert((device.refuses)(2, 1024, false) is None);
    assert(after.at(2, 1024) =~= changed);
    assert(bytes::le16(changed, 58) == state);
    assert(bytes::le32(changed, 24) == bytes::le32(before, 24));
    assert(bytes::le32(changed, 76) == bytes::le32(before, 76));
    assert(bytes::le16(changed, 88) == bytes::le16(before, 88));
    assert(bytes::le32(changed, 96) == bytes::le32(before, 96));
    assert(bytes::le32(changed, 4) == bytes::le32(before, 4));
    assert(bytes::le32(changed, 336) == bytes::le32(before, 336));
    assert(bytes::le32(changed, 40) == bytes::le32(before, 40));
    assert(bytes::le32(changed, 32) == bytes::le32(before, 32));
    assert(bytes::le16(changed, 56) == bytes::le16(before, 56));
    assert(bytes::le16(changed, 254) == bytes::le16(before, 254));
    assert(bytes::le32(changed, 20) == bytes::le32(before, 20));
}

/// The file system that a device holds, as it is found clean.
pub open spec fn found_clean(device: DeviceView) -> Result<ExtFilesystem, ExtError> {
    match extfs::mounted(device.at(2, 1024)) {
        Ok(found) => Ok(ExtFilesystem { dirty: false, ..found }),
        Err(error) => Err(error),
    }
}

/// Recovery leaves the file system clean or says why it could not, and a file system
/// that is clean needs none. The mark is kept, so that whoever mounts the file system
/// later, also after a loss of power, finds it clean.
pub proof fn law_recovery_cleans(fs: ExtFilesystem, device: DeviceView)
    requires
        device.wf(),
    ensures
        extfs::recovered(fs, device).2 is Ok ==> !extfs::recovered(fs, device).0.dirty,
        !fs.dirty ==> extfs::recovered(fs, device) == (fs, device, Ok::<(), ExtError>(())),
        fs.dirty && extfs::recovered(fs, device).2 is Ok ==> {
            let after = extfs::recovered(fs, device).1;
            &&& after.kept == device.kept.push(after.bytes)
            &&& extfs::mounted(after.at(2, 1024)) == found_clean(device)
        },
{
    if fs.dirty && !fs.read_only && extfs::state_set(device, extfs::EXT_VALID_FS).1 is Ok {
        lemma_state_mounted(device, extfs::EXT_VALID_FS);
        assert(extfs::recovered(fs, device).1.bytes == extfs::state_set(
            device,
            extfs::EXT_VALID_FS,
        ).0.bytes);
    }
}

/// To sync a file system is to keep all that was written, then to mark it as clean, and to
/// keep the mark: whoever mounts it later, also after a loss of power, finds it clean and
/// with all that was written.
pub proof fn law_sync_keeps_all(fs: ExtFilesystem, device: DeviceView)
    requires
        device.wf(),
    ensures
        extfs::synced(fs, device).2 is Ok ==> {
            let (now, after, _) = extfs::synced(fs, device);
            &&& !now.dirty
            &&& after.kept == device.kept.push(device.bytes).push(after.bytes)
            &&& after.bytes.len() == device.bytes.len()
            &&& forall|byte: int|
                0 <= byte < device.bytes.len() && !is_state(byte)
                    ==> #[trigger] after.bytes[byte] == device.bytes[byte]
            &&& extfs::mounted(after.at(2, 1024)) == found_clean(device)
        },
{
    if extfs::synced(fs, device).2 is Ok {
        lemma_keeping_wf(device);
        lemma_state_mounted(device.keeping(), extfs::EXT_VALID_FS);
        lemma_state_set(device.keeping(), extfs::EXT_VALID_FS);
        assert(extfs::synced(fs, device).1.bytes == extfs::state_set(
            device.keeping(),
            extfs::EXT_VALID_FS,
        ).0.bytes);
    }
}

proof fn lemma_data_kept(
    fs: ExtFilesystem,
    device: DeviceView,
    inode: u32,
    offset: int,
    input: Seq<u8>,
    done: int,
)
    ensures
        extfs::data_written(fs, device, inode, offset, input, done).0.kept == device.kept,
    decreases input.len() - done,
{
    let place = offset + done;
    let count = extfs::in_block(fs, place, input.len() - done);
    let size = fs.block_size as int;
    if done < input.len() && count > 0 {
        if let Ok(Some(physical)) = extfs::file_block(
            fs,
            device,
            inode,
            extfs::logical_of(fs, place),
        ) {
            if let Ok(block) = fs.block(device, physical) {
                let (after, result) = extfs::block_written(
                    fs,
                    device,
                    physical,
                    extfs::spliced(
                        block.subrange(0, size),
                        place % size,
                        input.subrange(done, done + count),
                    ),
                );
                if result is Ok {
                    lemma_data_kept(fs, after, inode, offset, input, done + count);
                }
            }
        }
    }
}

/// Before the first block of a file is written, the device holds and keeps the mark that the
/// file system is not clean: whoever mounts what was kept at any time from then on knows that
/// a write may be left half done. A write that succeeds is kept whole.
pub proof fn law_writes_are_marked_first(
    fs: ExtFilesystem,
    device: DeviceView,
    path: Seq<u8>,
    offset: u64,
    input: Seq<u8>,
)
    requires
        device.wf(),
        !fs.dirty,
        !fs.read_only,
    ensures
        ({
            let (now, after, result) = extfs::file_written(fs, device, path, offset, input);
            let (first, set) = extfs::state_set(device, extfs::EXT_ERROR_FS);
            &&& now == (if set is Ok && device.flush_refuses is None {
                marked(fs)
            } else {
                fs
            })
            &&& !now.dirty ==> after == first
            &&& now.dirty ==> after.kept == (if result is Ok {
                device.kept.push(first.bytes).push(after.bytes)
            } else {
                device.kept.push(first.bytes)
            })
            &&& now.dirty ==> extfs::mounted(first.at(2, 1024)) == (match extfs::mounted(
                device.at(2, 1024),
            ) {
                Ok(found) => Ok::<ExtFilesystem, ExtError>(marked(found)),
                Err(error) => Err(error),
            })
        }),
{
    reveal(extfs::file_written);
    let (first, set) = extfs::state_set(device, extfs::EXT_ERROR_FS);
    if set is Ok {
        lemma_state_mounted(device, extfs::EXT_ERROR_FS);
        if device.flush_refuses is None {
            let begun = first.keeping();
            let now = marked(fs);
            if let Ok(inode) = extfs::looked_up(now, begun, path) {
                lemma_data_kept(now, begun, inode, offset as int, input, 0);
            }
        }
    }
}

} // verus!

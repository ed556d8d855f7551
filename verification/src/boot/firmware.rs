//! The memory maps that firmware and boot loaders hand over: a table of BIOS or
//! UEFI descriptors, Multiboot2 tags, or a flattened device tree.
use super::memory_map;
use super::memory_map::{
    BootMemory, MemoryMap, MemoryRegion, MemoryRegionKind, MemorySource, HANDOFF_MAGIC,
    HANDOFF_VERSION, MAX_BOOT_DATA_SIZE, MAX_REGIONS,
};
use crate::arch::Platform;
use crate::bytes;
use crate::text;
use vstd::prelude::*;
use vstd::slice::slice_subrange;

pub mod laws;

verus! {

/// The size of the header of a descriptor table.
pub const HANDOFF_SIZE: u64 = 32;

pub const E820_DESCRIPTOR_SIZE: usize = 24;

pub const UEFI_DESCRIPTOR_SIZE: usize = 40;

/// The kind that a BIOS or Multiboot2 memory type stands for.
pub open spec fn e820_meaning(kind: u32) -> MemoryRegionKind {
    if kind == 1 {
        MemoryRegionKind::Usable
    } else if kind == 3 {
        MemoryRegionKind::AcpiReclaimable
    } else if kind == 4 {
        MemoryRegionKind::AcpiNonVolatile
    } else if kind == 5 {
        MemoryRegionKind::Bad
    } else {
        MemoryRegionKind::Reserved
    }
}

pub fn e820_kind(kind: u32) -> (meaning: MemoryRegionKind)
    ensures
        meaning == e820_meaning(kind),
{
    match kind {
        1 => MemoryRegionKind::Usable,
        3 => MemoryRegionKind::AcpiReclaimable,
        4 => MemoryRegionKind::AcpiNonVolatile,
        5 => MemoryRegionKind::Bad,
        _ => MemoryRegionKind::Reserved,
    }
}

/// The kind that a UEFI memory type stands for. Memory that the firmware needs at
/// run time, marked by the highest attribute, is reserved.
pub open spec fn uefi_meaning(kind: u32, attributes: u64) -> MemoryRegionKind {
    if attributes >= 0x8000_0000_0000_0000 {
        MemoryRegionKind::Reserved
    } else if 1 <= kind <= 4 {
        MemoryRegionKind::Bootloader
    } else if kind == 7 {
        MemoryRegionKind::Usable
    } else if kind == 9 {
        MemoryRegionKind::AcpiReclaimable
    } else if kind == 10 {
        MemoryRegionKind::AcpiNonVolatile
    } else if kind == 8 {
        MemoryRegionKind::Bad
    } else {
        MemoryRegionKind::Reserved
    }
}

pub fn uefi_kind(kind: u32, attributes: u64) -> (meaning: MemoryRegionKind)
    ensures
        meaning == uefi_meaning(kind, attributes),
{
    if attributes >= 0x8000_0000_0000_0000 {
        return MemoryRegionKind::Reserved;
    }
    if kind >= 1 && kind <= 4 {
        return MemoryRegionKind::Bootloader;
    }
    match kind {
        7 => MemoryRegionKind::Usable,
        9 => MemoryRegionKind::AcpiReclaimable,
        10 => MemoryRegionKind::AcpiNonVolatile,
        8 => MemoryRegionKind::Bad,
        _ => MemoryRegionKind::Reserved,
    }
}

/// What a parser finds before the regions are normalized: the regions and the range
/// of the boot data; `None` where the data are refused.
pub type Found = Option<(Seq<MemoryRegion>, Option<(u64, u64)>)>;

/// `map` is what comes of `found`.
pub open spec fn map_from(
    platform: Platform,
    map: memory_map::MemoryMapView,
    source: MemorySource,
    found: Option<(Seq<MemoryRegion>, Option<(u64, u64)>)>,
) -> bool {
    match found {
        None => map == memory_map::empty_map(platform, source),
        Some((raw, boot_data)) => map.platform == platform && map.source == source && map.boot_data == boot_data
            && memory_map::normalizes_to(raw, map.regions),
    }
}

/// The regions after descriptor number `index` of the table was entered.
pub open spec fn with_descriptor(
    platform: Platform,
    regions: Seq<MemoryRegion>,
    table: Seq<u8>,
    size: int,
    index: int,
    source: MemorySource,
) -> Option<Seq<MemoryRegion>> {
    let at = index * size;
    match source {
        MemorySource::BiosE820 => if size < 24 {
            None
        } else if bytes::le32(table, at + 20) % 2 == 1 {
            memory_map::pushed(
                platform,
                regions,
                bytes::le64(table, at),
                bytes::le64(table, at + 8),
                e820_meaning(bytes::le32(table, at + 16)),
            )
        } else {
            Some(regions)
        },
        MemorySource::Uefi => if size < 40 {
            None
        } else if bytes::le64(table, at + 24) * 4096 <= u64::MAX {
            memory_map::pushed(
                platform,
                regions,
                bytes::le64(table, at + 8),
                (bytes::le64(table, at + 24) * 4096) as u64,
                uefi_meaning(bytes::le32(table, at), bytes::le64(table, at + 32)),
            )
        } else {
            Some(regions)
        },
        _ => None,
    }
}

/// The regions of the first `count` descriptors.
pub open spec fn descriptor_regions(
    platform: Platform,
    table: Seq<u8>,
    size: int,
    count: nat,
    source: MemorySource,
) -> Option<Seq<MemoryRegion>>
    decreases count,
{
    if count == 0 {
        Some(Seq::empty())
    } else {
        match descriptor_regions(platform, table, size, (count - 1) as nat, source) {
            Some(regions) => with_descriptor(platform, regions, table, size, count - 1, source),
            None => None,
        }
    }
}

pub open spec fn smaller(a: int, b: int) -> int {
    if a <= b {
        a
    } else {
        b
    }
}

pub open spec fn larger(a: int, b: int) -> int {
    if a >= b {
        a
    } else {
        b
    }
}

/// The regions of the descriptor table at `address`.
pub open spec fn handoff_found(memory: BootMemory, address: u64, source: MemorySource) -> Option<
    (Seq<MemoryRegion>, Option<(u64, u64)>),
> {
    let header = memory.contents(address, 32);
    let size = bytes::le32(header, 12) as int;
    let count = bytes::le32(header, 16) as nat;
    let descriptors = bytes::le64(header, 24);
    if !memory.readable(address, 32) || count > 256 || bytes::le64(header, 0) != HANDOFF_MAGIC
        || bytes::le32(header, 8) != HANDOFF_VERSION || size == 0 || !memory.readable(
        descriptors,
        size * count,
    ) {
        None
    } else {
        match descriptor_regions(
            memory.platform,
            memory.contents(descriptors, size * count),
            size,
            count,
            source,
        ) {
            None => None,
            Some(regions) => Some(
                (
                    regions,
                    Some(
                        (
                            smaller(address as int, descriptors as int) as u64,
                            larger(address + 32, descriptors + size * count) as u64,
                        ),
                    ),
                ),
            ),
        }
    }
}

proof fn lemma_descriptor_stays_none(
    platform: Platform,
    table: Seq<u8>,
    size: int,
    some: nat,
    all: nat,
    source: MemorySource,
)
    requires
        some <= all,
        descriptor_regions(platform, table, size, some, source) is None,
    ensures
        descriptor_regions(platform, table, size, all, source) is None,
    decreases all,
{
    if some < all {
        lemma_descriptor_stays_none(platform, table, size, some, (all - 1) as nat, source);
    }
}

/// Enters one descriptor; `false` where it is refused.
fn enter_descriptor(
    map: &mut MemoryMap,
    table: &[u8],
    size: usize,
    index: usize,
    source: MemorySource,
) -> (entered: bool)
    requires
        size * (index + 1) <= table@.len(),
    ensures
        entered == (with_descriptor(old(map)@.platform, old(map)@.regions, table@, size as int, index as int, source) is Some),
        final(map)@.platform == old(map)@.platform,
        final(map)@.source == old(map)@.source,
        final(map)@.boot_data == old(map)@.boot_data,
        with_descriptor(old(map)@.platform, old(map)@.regions, table@, size as int, index as int, source) matches Some(
            regions,
        ) ==> final(map)@.regions == regions,
{
    proof {
        assert(size * (index + 1) == index * size + size) by (nonlinear_arith);
        assert(index * size <= table.len());
    }
    let at: usize = index * size;
    match source {
        MemorySource::BiosE820 => {
            if size < E820_DESCRIPTOR_SIZE {
                return false;
            }
            assert(at + 24 <= table.len());
            if bytes::read_le32(table, at + 20) % 2 == 1 {
                return map.push(
                    bytes::read_le64(table, at),
                    bytes::read_le64(table, at + 8),
                    e820_kind(bytes::read_le32(table, at + 16)),
                );
            }
            true
        },
        MemorySource::Uefi => {
            if size < UEFI_DESCRIPTOR_SIZE {
                return false;
            }
            assert(at + 40 <= table.len());
            let pages: u64 = bytes::read_le64(table, at + 24);
            if let Some(length) = pages.checked_mul(4096) {
                return map.push(
                    bytes::read_le64(table, at + 8),
                    length,
                    uefi_kind(bytes::read_le32(table, at), bytes::read_le64(table, at + 32)),
                );
            }
            true
        },
        _ => false,
    }
}

/// The map of the descriptor table at `address`; no memory where the table is
/// invalid.
pub fn parse_handoff(memory: &BootMemory, address: u64, source: MemorySource) -> (map: MemoryMap)
    ensures
        map_from(memory.platform, map@, source, handoff_found(*memory, address, source)),
{
    let mut map = MemoryMap::new(memory.platform, source);
    let header = match memory.get(address, HANDOFF_SIZE) {
        Some(header) => header,
        None => return map,
    };
    let magic: u64 = bytes::read_le64(header, 0);
    let version: u32 = bytes::read_le32(header, 8);
    let descriptor_size: u64 = bytes::read_le32(header, 12) as u64;
    let descriptor_count: u64 = bytes::read_le32(header, 16) as u64;
    let descriptors: u64 = bytes::read_le64(header, 24);
    if descriptor_count > MAX_REGIONS as u64 {
        return map;
    }
    assert(descriptor_size * descriptor_count <= 0xffff_ffff * 256) by (nonlinear_arith)
        requires
            descriptor_size <= 0xffff_ffff,
            descriptor_count <= 256,
    ;
    let data_size: u64 = descriptor_size * descriptor_count;
    if magic != HANDOFF_MAGIC || version != HANDOFF_VERSION || descriptor_size == 0 {
        return map;
    }
    let table = match memory.get(descriptors, data_size) {
        Some(table) => table,
        None => return map,
    };
    let end_of_header: u64 = address + HANDOFF_SIZE;
    let end_of_table: u64 = descriptors + data_size;
    let boot_start: u64 = if address <= descriptors {
        address
    } else {
        descriptors
    };
    let boot_end: u64 = if end_of_header >= end_of_table {
        end_of_header
    } else {
        end_of_table
    };
    map.set_boot_data(boot_start, boot_end);
    let size: usize = descriptor_size as usize;
    let count: usize = descriptor_count as usize;
    let ghost found_boot = Some((boot_start, boot_end));
    let mut index: usize = 0;
    while index < count
        invariant
            index <= count,
            size * count == table@.len(),
            map@.platform == memory.platform,
            map@.source == source,
            map@.boot_data == found_boot,
            descriptor_regions(memory.platform, table@, size as int, index as nat, source) == Some(map@.regions),
            handoff_found(*memory, address, source) == (match descriptor_regions(
                memory.platform,
                table@,
                size as int,
                count as nat,
                source,
            ) {
                None => None,
                Some(regions) => Some((regions, found_boot)),
            }),
        decreases count - index,
    {
        assert(size * (index + 1) <= size * count) by (nonlinear_arith)
            requires
                index + 1 <= count,
        ;
        let entered = enter_descriptor(&mut map, table, size, index, source);
        if !entered {
            proof {
                lemma_descriptor_stays_none(
                    memory.platform,
                    table@,
                    size as int,
                    (index + 1) as nat,
                    count as nat,
                    source,
                );
            }
            return MemoryMap::new(memory.platform, source);
        }
        index += 1;
    }
    map.normalize();
    map
}

/// The regions of the entries of a Multiboot2 memory map from `offset` on.
pub open spec fn multiboot_entries(
    platform: Platform,
    regions: Seq<MemoryRegion>,
    tag: Seq<u8>,
    entry_size: int,
    offset: int,
) -> Option<Seq<MemoryRegion>>
    decreases tag.len() - offset,
{
    if entry_size < 24 || offset < 0 || offset + entry_size > tag.len() {
        Some(regions)
    } else {
        match memory_map::pushed(
            platform,
            regions,
            bytes::le64(tag, offset),
            bytes::le64(tag, offset + 8),
            e820_meaning(bytes::le32(tag, offset + 16)),
        ) {
            Some(more) => multiboot_entries(platform, more, tag, entry_size, offset + entry_size),
            None => None,
        }
    }
}

/// The regions after a Multiboot2 memory map tag.
pub open spec fn multiboot_tag(platform: Platform, regions: Seq<MemoryRegion>, tag: Seq<u8>) -> Option<
    Seq<MemoryRegion>,
> {
    let entry_size = bytes::le32(tag, 8) as int;
    if entry_size < 24 || entry_size > 256 {
        None
    } else {
        multiboot_entries(platform, regions, tag, entry_size, 16)
    }
}

/// `value` rounded up to a multiple of eight.
pub open spec fn aligned8(value: int) -> int {
    (value + 7) / 8 * 8
}

/// The regions of the Multiboot2 tags from `offset` on.
pub open spec fn multiboot_tags(
    platform: Platform,
    regions: Seq<MemoryRegion>,
    information: Seq<u8>,
    offset: int,
) -> Option<Seq<MemoryRegion>>
    decreases information.len() + 7 - offset,
{
    let kind = bytes::le32(information, offset);
    let size = bytes::le32(information, offset + 4) as int;
    if offset < 0 || offset + 8 > information.len() {
        Some(regions)
    } else if size < 8 || offset + size > information.len() {
        None
    } else if kind == 0 {
        Some(regions)
    } else if kind == 6 && size >= 16 {
        match multiboot_tag(platform, regions, information.subrange(offset, offset + size)) {
            Some(more) => multiboot_tags(platform, more, information, aligned8(offset + size)),
            None => None,
        }
    } else {
        multiboot_tags(platform, regions, information, aligned8(offset + size))
    }
}

/// The regions of the Multiboot2 information at `address`.
pub open spec fn multiboot_found(memory: BootMemory, address: u64) -> Option<
    (Seq<MemoryRegion>, Option<(u64, u64)>),
> {
    let total = bytes::le32(memory.contents(address, 8), 0) as int;
    if !memory.readable(address, 8) || address % 8 != 0 || total < 16 || total > MAX_BOOT_DATA_SIZE
        || !memory.readable(address, total) {
        None
    } else {
        match multiboot_tags(memory.platform, Seq::empty(), memory.contents(address, total), 8) {
            Some(regions) => Some((regions, Some((address, (address + total) as u64)))),
            None => None,
        }
    }
}

/// Enters the regions of a memory map tag; `false` where it is refused.
fn parse_multiboot_mmap(tag: &[u8], map: &mut MemoryMap) -> (entered: bool)
    requires
        16 <= tag@.len() <= MAX_BOOT_DATA_SIZE,
    ensures
        entered == (multiboot_tag(old(map)@.platform, old(map)@.regions, tag@) is Some),
        final(map)@.platform == old(map)@.platform,
        final(map)@.source == old(map)@.source,
        final(map)@.boot_data == old(map)@.boot_data,
        multiboot_tag(old(map)@.platform, old(map)@.regions, tag@) matches Some(regions) ==> final(map)@.regions
            == regions,
{
    let entry_size: usize = bytes::read_le32(tag, 8) as usize;
    if entry_size < 24 || entry_size > 256 {
        return false;
    }
    let mut offset: usize = 16;
    while offset + entry_size <= tag.len()
        invariant
            16 <= tag@.len() <= MAX_BOOT_DATA_SIZE,
            entry_size == bytes::le32(tag@, 8),
            24 <= entry_size <= 256,
            0 <= offset <= tag@.len() + 256,
            map@.platform == old(map)@.platform,
            map@.source == old(map)@.source,
            map@.boot_data == old(map)@.boot_data,
            multiboot_entries(old(map)@.platform, old(map)@.regions, tag@, entry_size as int, 16) == multiboot_entries(
                old(map)@.platform,
                map@.regions,
                tag@,
                entry_size as int,
                offset as int,
            ),
        decreases tag@.len() + 256 - offset,
    {
        let start: u64 = bytes::read_le64(tag, offset);
        let length: u64 = bytes::read_le64(tag, offset + 8);
        let kind: u32 = bytes::read_le32(tag, offset + 16);
        if !map.push(start, length, e820_kind(kind)) {
            return false;
        }
        offset += entry_size;
    }
    true
}

/// The map of the Multiboot2 information at `address`.
pub fn parse_multiboot2(memory: &BootMemory, address: u64) -> (map: MemoryMap)
    ensures
        map_from(memory.platform, map@, MemorySource::Multiboot2, multiboot_found(*memory, address)),
{
    let mut map = MemoryMap::new(memory.platform, MemorySource::Multiboot2);
    let head = match memory.get(address, 8) {
        Some(head) => head,
        None => return map,
    };
    if address % 8 != 0 {
        return map;
    }
    let total_size: u64 = bytes::read_le32(head, 0) as u64;
    if total_size < 16 || total_size > MAX_BOOT_DATA_SIZE {
        return map;
    }
    let information = match memory.get(address, total_size) {
        Some(information) => information,
        None => return map,
    };
    map.set_boot_data(address, address + total_size);
    let ghost found_boot = Some((address, (address + total_size) as u64));
    let mut offset: usize = 8;
    while offset + 8 <= information.len()
        invariant_except_break
            information@.len() <= MAX_BOOT_DATA_SIZE,
            0 <= offset <= information@.len() + 8,
            map@.platform == memory.platform,
            map@.source == MemorySource::Multiboot2,
            map@.boot_data == found_boot,
            multiboot_found(*memory, address) == (match multiboot_tags(
                memory.platform,
                map@.regions,
                information@,
                offset as int,
            ) {
                Some(regions) => Some((regions, found_boot)),
                None => None,
            }),
        ensures
            map@.platform == memory.platform,
            map@.source == MemorySource::Multiboot2,
            map@.boot_data == found_boot,
            multiboot_found(*memory, address) == Some((map@.regions, found_boot)),
        decreases information@.len() + 8 - offset,
    {
        let kind: u32 = bytes::read_le32(information, offset);
        let size: u32 = bytes::read_le32(information, offset + 4);
        if size < 8 || size as usize > information.len() - offset {
            return MemoryMap::new(memory.platform, MemorySource::Multiboot2);
        }
        if kind == 0 {
            break;
        }
        let next: usize = offset + size as usize;
        if kind == 6 && size >= 16 {
            let tag = slice_subrange(information, offset, next);
            if !parse_multiboot_mmap(tag, &mut map) {
                return MemoryMap::new(memory.platform, MemorySource::Multiboot2);
            }
        }
        offset = (next + 7) / 8 * 8;
    }
    map.normalize();
    map
}

pub const FDT_MAGIC: u32 = 0xd00d_feed;

pub const FDT_BEGIN_NODE: u32 = 1;

pub const FDT_END_NODE: u32 = 2;

pub const FDT_PROP: u32 = 3;

pub const FDT_NOP: u32 = 4;

pub const FDT_END: u32 = 9;

/// `value` rounded up to a multiple of four.
pub open spec fn aligned4(value: int) -> int {
    (value + 3) / 4 * 4
}

pub fn align4(value: usize) -> (aligned: usize)
    requires
        value <= usize::MAX - 3,
    ensures
        aligned == aligned4(value as int),
        value <= aligned <= value + 3,
{
    (value + 3) / 4 * 4
}

/// Whether `size` bytes from `offset` on lie in `total` bytes, with `offset` before
/// their end.
pub open spec fn in_blob(offset: int, size: int, total: int) -> bool {
    offset < total && offset + size <= total
}

pub fn fdt_range_valid(offset: u64, size: u64, total_size: u64) -> (valid: bool)
    ensures
        valid == in_blob(offset as int, size as int, total_size as int),
{
    match offset.checked_add(size) {
        Some(end) => offset < total_size && end <= total_size,
        None => false,
    }
}

/// The big-endian number of one or two cells at `at`.
pub open spec fn cells(blob: Seq<u8>, at: int, count: int) -> u64 {
    if count == 1 {
        bytes::be32(blob, at) as u64
    } else {
        bytes::be64(blob, at)
    }
}

pub fn read_cells(blob: &[u8], at: usize, count: usize) -> (value: u64)
    requires
        count == 1 || count == 2,
        at + 4 * count <= blob@.len(),
    ensures
        value == cells(blob@, at as int, count as int),
{
    if count == 1 {
        bytes::read_be32(blob, at) as u64
    } else {
        bytes::read_be64(blob, at)
    }
}

/// The regions of the reservation entries from `at` on, up to the entry of zeroes, and
/// whether all of them were entered.
pub open spec fn reservations(platform: Platform, regions: Seq<MemoryRegion>, blob: Seq<u8>, at: int) -> (
    Seq<MemoryRegion>,
    bool,
)
    decreases blob.len() - at,
{
    let start = bytes::be64(blob, at);
    let size = bytes::be64(blob, at + 8);
    if at < 0 || !in_blob(at, 16, blob.len() as int) {
        (regions, false)
    } else if start == 0 && size == 0 {
        (regions, true)
    } else {
        match memory_map::pushed(platform, regions, start, size, MemoryRegionKind::Reserved) {
            Some(more) => reservations(platform, more, blob, at + 16),
            None => (regions, false),
        }
    }
}

fn parse_fdt_reservations(blob: &[u8], offset: usize, map: &mut MemoryMap) -> (entered: bool)
    requires
        blob@.len() <= MAX_BOOT_DATA_SIZE,
        offset <= 0xffff_ffff,
    ensures
        (final(map)@.regions, entered) == reservations(old(map)@.platform, old(map)@.regions, blob@, offset as int),
        final(map)@.platform == old(map)@.platform,
        final(map)@.source == old(map)@.source,
        final(map)@.boot_data == old(map)@.boot_data,
{
    let mut cursor: usize = offset;
    loop
        invariant
            blob@.len() <= MAX_BOOT_DATA_SIZE,
            map@.platform == old(map)@.platform,
            map@.source == old(map)@.source,
            map@.boot_data == old(map)@.boot_data,
            reservations(old(map)@.platform, old(map)@.regions, blob@, offset as int) == reservations(
                old(map)@.platform,
                map@.regions,
                blob@,
                cursor as int,
            ),
        decreases blob@.len() - cursor,
    {
        if !fdt_range_valid(cursor as u64, 16, blob.len() as u64) {
            return false;
        }
        let start: u64 = bytes::read_be64(blob, cursor);
        let size: u64 = bytes::read_be64(blob, cursor + 8);
        cursor += 16;
        if start == 0 && size == 0 {
            return true;
        }
        if !map.push(start, size, MemoryRegionKind::Reserved) {
            return false;
        }
    }
}

/// The regions of the address and size pairs of a `reg` property from `at` on, and whether
/// all of them were entered.
pub open spec fn reg_entries(
    platform: Platform,
    regions: Seq<MemoryRegion>,
    value: Seq<u8>,
    at: int,
    address_cells: int,
    size_cells: int,
    kind: MemoryRegionKind,
) -> (Seq<MemoryRegion>, bool)
    decreases value.len() - at,
{
    let pair = 4 * (address_cells + size_cells);
    let size = cells(value, at + 4 * address_cells, size_cells);
    if address_cells < 1 || size_cells < 1 || at < 0 || at + pair > value.len() {
        (regions, true)
    } else if size == 0 {
        reg_entries(platform, regions, value, at + pair, address_cells, size_cells, kind)
    } else {
        match memory_map::pushed(platform, regions, cells(value, at, address_cells), size, kind) {
            Some(more) => reg_entries(platform, more, value, at + pair, address_cells, size_cells, kind),
            None => (regions, false),
        }
    }
}

/// The regions after a `reg` property, and whether its form is right and all its pairs were
/// entered.
pub open spec fn reg_property(
    platform: Platform,
    regions: Seq<MemoryRegion>,
    value: Seq<u8>,
    address_cells: int,
    size_cells: int,
    kind: MemoryRegionKind,
) -> (Seq<MemoryRegion>, bool) {
    if !(1 <= address_cells <= 2) || !(1 <= size_cells <= 2) || value.len() == 0 || value.len() % (
    (4 * (address_cells + size_cells)) as nat) != 0 {
        (regions, false)
    } else {
        reg_entries(platform, regions, value, 0, address_cells, size_cells, kind)
    }
}

fn parse_fdt_reg(
    value: &[u8],
    address_cells: usize,
    size_cells: usize,
    kind: MemoryRegionKind,
    map: &mut MemoryMap,
) -> (entered: bool)
    requires
        value@.len() <= MAX_BOOT_DATA_SIZE,
    ensures
        (final(map)@.regions, entered) == reg_property(
            old(map)@.platform,
            old(map)@.regions,
            value@,
            address_cells as int,
            size_cells as int,
            kind,
        ),
        final(map)@.platform == old(map)@.platform,
        final(map)@.source == old(map)@.source,
        final(map)@.boot_data == old(map)@.boot_data,
{
    if address_cells < 1 || address_cells > 2 || size_cells < 1 || size_cells > 2 {
        return false;
    }
    let pair: usize = (address_cells + size_cells) * 4;
    if value.len() == 0 || value.len() % pair != 0 {
        return false;
    }
    let mut offset: usize = 0;
    while offset < value.len()
        invariant
            value@.len() <= MAX_BOOT_DATA_SIZE,
            1 <= address_cells <= 2,
            1 <= size_cells <= 2,
            pair == 4 * (address_cells + size_cells),
            8 <= pair <= 16,
            value@.len() % (pair as nat) == 0,
            offset as nat % (pair as nat) == 0,
            offset <= value@.len(),
            map@.platform == old(map)@.platform,
            map@.source == old(map)@.source,
            map@.boot_data == old(map)@.boot_data,
            reg_entries(
                old(map)@.platform,
                old(map)@.regions,
                value@,
                0,
                address_cells as int,
                size_cells as int,
                kind,
            ) == reg_entries(
                old(map)@.platform,
                map@.regions,
                value@,
                offset as int,
                address_cells as int,
                size_cells as int,
                kind,
            ),
        decreases value@.len() - offset,
    {
        proof {
            lemma_next_multiple(offset as int, value@.len() as int, pair as int);
        }
        let start: u64 = read_cells(value, offset, address_cells);
        let size: u64 = read_cells(value, offset + address_cells * 4, size_cells);
        if size != 0 && !map.push(start, size, kind) {
            return false;
        }
        offset += pair;
    }
    true
}

/// Between two multiples there is room for a whole step.
proof fn lemma_next_multiple(a: int, b: int, step: int)
    requires
        step > 0,
        0 <= a < b,
        a % step == 0,
        b % step == 0,
    ensures
        a + step <= b,
        (a + step) % step == 0,
{
    vstd::arithmetic::div_mod::lemma_fundamental_div_mod(a, step);
    vstd::arithmetic::div_mod::lemma_fundamental_div_mod(b, step);
    vstd::arithmetic::div_mod::lemma_mod_add_multiples_vanish(a, step);
    assert(a / step < b / step) by (nonlinear_arith)
        requires
            a == step * (a / step),
            b == step * (b / step),
            a < b,
            step > 0,
    ;
    assert(step * (a / step) + step <= step * (b / step)) by (nonlinear_arith)
        requires
            a / step + 1 <= b / step,
            step > 0,
    ;
}

/// Byte `i` of a name agrees with `memory`, with or without a unit address.
pub open spec fn agrees_with_memory(name: Seq<u8>, i: int) -> bool {
    let word = text::literal("memory");
    (i < word.len() ==> name[i] == word[i]) && (i == word.len() ==> name[i] == 64)
}

/// Whether a node name is `memory`, with or without a unit address, or begins it.
pub open spec fn names_memory(name: Seq<u8>) -> bool {
    forall|i: int| 0 <= i < name.len() ==> #[trigger] agrees_with_memory(name, i)
}

/// Byte `i` of a name agrees with `reserved-memory`.
pub open spec fn agrees_with_reserved(name: Seq<u8>, i: int) -> bool {
    let word = text::literal("reserved-memory");
    i < word.len() && name[i] == word[i]
}

/// Whether a node name is `reserved-memory`, or begins it.
pub open spec fn names_reserved(name: Seq<u8>) -> bool {
    forall|i: int| 0 <= i < name.len() ==> #[trigger] agrees_with_reserved(name, i)
}

/// The text up to the next zero, if there is one before the end.
pub open spec fn terminated(data: Seq<u8>) -> Option<Seq<u8>> {
    let length = text::position(data, 0);
    if length < data.len() {
        Some(data.take(length as int))
    } else {
        None
    }
}

/// What [`fdt_node_name`] finds of a name.
fn fdt_node_name(blob: &[u8], start: usize, end: usize) -> (found: Option<(usize, bool, bool)>)
    requires
        start <= end <= blob@.len(),
    ensures
        match (found, terminated(blob@.subrange(start as int, end as int))) {
            (Some((length, memory, reserved)), Some(name)) => length == name.len() && memory
                == names_memory(name) && reserved == names_reserved(name),
            (None, None) => true,
            _ => false,
        },
        found matches Some((length, _, _)) ==> start + length < end,
{
    let window = slice_subrange(blob, start, end);
    let length: usize = text::position_from(window, 0, 0);
    assert(window@.skip(0) =~= window@);
    if length >= window.len() {
        return None;
    }
    let ghost name = window@.take(length as int);
    let memory_name = text::literal_bytes("memory");
    let reserved_name = text::literal_bytes("reserved-memory");
    let mut memory = true;
    let mut reserved = true;
    let mut index: usize = 0;
    while index < length
        invariant
            index <= length < window@.len(),
            name == window@.take(length as int),
            memory_name@ == text::literal("memory"),
            reserved_name@ == text::literal("reserved-memory"),
            memory <==> forall|i: int| 0 <= i < index ==> #[trigger] agrees_with_memory(name, i),
            reserved <==> forall|i: int|
                0 <= i < index ==> #[trigger] agrees_with_reserved(name, i),
        decreases length - index,
    {
        let byte: u8 = window[index];
        assert(name[index as int] == byte);
        let ghost memory_agrees = agrees_with_memory(name, index as int);
        let ghost reserved_agrees = agrees_with_reserved(name, index as int);
        if index < memory_name.len() {
            memory = memory && memory_name[index] == byte;
        } else if index == memory_name.len() {
            memory = memory && byte == 64;
        }
        reserved = reserved && index < reserved_name.len() && reserved_name[index] == byte;
        assert(memory ==> memory_agrees);
        assert(reserved ==> reserved_agrees);
        index += 1;
    }
    Some((length, memory, reserved))
}

/// Whether the string at `offset` of the strings block is `word`.
#[verifier::opaque]
pub open spec fn string_is(strings: Seq<u8>, offset: int, word: Seq<u8>) -> bool {
    offset + word.len() < strings.len() && strings.subrange(offset, offset + word.len()) == word
        && strings[offset + word.len()] == 0
}

pub fn fdt_string_equals(strings: &[u8], name_offset: usize, expected: &[u8]) -> (same: bool)
    requires
        name_offset <= strings@.len(),
    ensures
        same == string_is(strings@, name_offset as int, expected@),
{
    reveal(string_is);
    if expected.len() >= strings.len() - name_offset {
        return false;
    }
    let end: usize = name_offset + expected.len();
    text::equal(slice_subrange(strings, name_offset, end), expected) && strings[end] == 0
}

/// Where a walk through the structure block of a device tree stands.
#[derive(Clone, Copy)]
pub struct FdtWalk {
    pub cursor: usize,
    pub depth: usize,
    pub address_cells: usize,
    pub size_cells: usize,
    pub memory_depth: Option<usize>,
    pub reserved_container_depth: Option<usize>,
    pub reserved_node_depth: Option<usize>,
}

/// A walk that enters a node with this name.
pub open spec fn entered_node(walk: FdtWalk, name: Seq<u8>) -> FdtWalk {
    let depth = (walk.depth + 1) as usize;
    FdtWalk {
        cursor: aligned4(walk.cursor + 4 + name.len() + 1) as usize,
        depth,
        memory_depth: if depth == 2 && names_memory(name) {
            Some(depth)
        } else {
            walk.memory_depth
        },
        reserved_container_depth: if depth == 2 && names_reserved(name) {
            Some(depth)
        } else {
            walk.reserved_container_depth
        },
        reserved_node_depth: if !(depth == 2 && names_reserved(name))
            && walk.reserved_container_depth is Some && depth
            == walk.reserved_container_depth.unwrap() + 1 {
            Some(depth)
        } else {
            walk.reserved_node_depth
        },
        ..walk
    }
}

/// A walk that leaves a node.
pub open spec fn left_node(walk: FdtWalk) -> FdtWalk {
    FdtWalk {
        cursor: (walk.cursor + 4) as usize,
        depth: (walk.depth - 1) as usize,
        memory_depth: if walk.memory_depth == Some(walk.depth) {
            None
        } else {
            walk.memory_depth
        },
        reserved_container_depth: if walk.reserved_container_depth == Some(walk.depth) {
            None
        } else {
            walk.reserved_container_depth
        },
        reserved_node_depth: if walk.reserved_node_depth == Some(walk.depth) {
            None
        } else {
            walk.reserved_node_depth
        },
        ..walk
    }
}

/// The walk and the regions after a property of this name and value, and whether its form
/// is right.
pub open spec fn with_property(
    platform: Platform,
    walk: FdtWalk,
    regions: Seq<MemoryRegion>,
    strings: Seq<u8>,
    name_offset: int,
    value: Seq<u8>,
) -> (FdtWalk, Seq<MemoryRegion>, bool) {
    let next = FdtWalk { cursor: aligned4(walk.cursor + 12 + value.len()) as usize, ..walk };
    if walk.depth == 1 && value.len() == 4 && string_is(
        strings,
        name_offset,
        text::literal("#address-cells"),
    ) {
        (FdtWalk { address_cells: bytes::be32(value, 0) as usize, ..next }, regions, true)
    } else if walk.depth == 1 && value.len() == 4 && string_is(
        strings,
        name_offset,
        text::literal("#size-cells"),
    ) {
        (FdtWalk { size_cells: bytes::be32(value, 0) as usize, ..next }, regions, true)
    } else if (walk.memory_depth == Some(walk.depth) || walk.reserved_node_depth == Some(
        walk.depth,
    )) && string_is(strings, name_offset, text::literal("reg")) {
        match reg_property(
            platform,
            regions,
            value,
            walk.address_cells as int,
            walk.size_cells as int,
            if walk.memory_depth == Some(walk.depth) {
                MemoryRegionKind::Usable
            } else {
                MemoryRegionKind::Reserved
            },
        ) {
            (more, true) => (next, more, true),
            (more, false) => (walk, more, false),
        }
    } else {
        (next, regions, true)
    }
}

/// The regions that the structure block describes from `walk` on, and whether the block is
/// well formed; where it is not, those that stand before the fault.
pub open spec fn structure_regions(
    platform: Platform,
    walk: FdtWalk,
    regions: Seq<MemoryRegion>,
    structure: Seq<u8>,
    strings: Seq<u8>,
) -> (Seq<MemoryRegion>, bool)
    decreases structure.len() + 3 - walk.cursor,
{
    let token = bytes::be32(structure, walk.cursor as int);
    let at = walk.cursor + 4;
    if at > structure.len() || structure.len() > MAX_BOOT_DATA_SIZE {
        (regions, false)
    } else if token == FDT_BEGIN_NODE {
        match terminated(structure.skip(at)) {
            None => (regions, false),
            Some(name) => {
                let next = entered_node(walk, name);
                if aligned4(at + name.len() + 1) > structure.len() || next.cursor <= walk.cursor {
                    (regions, false)
                } else {
                    structure_regions(platform, next, regions, structure, strings)
                }
            },
        }
    } else if token == FDT_END_NODE {
        if walk.depth == 0 {
            (regions, false)
        } else {
            structure_regions(platform, left_node(walk), regions, structure, strings)
        }
    } else if token == FDT_PROP {
        let size = bytes::be32(structure, at) as int;
        let name_offset = bytes::be32(structure, at + 4) as int;
        if at + 8 > structure.len() || at + 8 + size > structure.len() || name_offset
            >= strings.len() {
            (regions, false)
        } else {
            match with_property(
                platform,
                walk,
                regions,
                strings,
                name_offset,
                structure.subrange(at + 8, at + 8 + size),
            ) {
                (next, more, true) => if next.cursor <= walk.cursor || next.cursor > structure.len()
                    + 3 {
                    (more, false)
                } else {
                    structure_regions(platform, next, more, structure, strings)
                },
                (_, more, false) => (more, false),
            }
        }
    } else if token == FDT_NOP {
        structure_regions(
            platform,
            FdtWalk { cursor: (walk.cursor + 4) as usize, ..walk },
            regions,
            structure,
            strings,
        )
    } else if token == FDT_END && walk.depth == 0 {
        (regions, true)
    } else {
        (regions, false)
    }
}

/// The walk at the start of a structure block that begins at `offset`.
pub open spec fn walk_begin(offset: int) -> FdtWalk {
    FdtWalk {
        cursor: offset as usize,
        depth: 0,
        address_cells: 2,
        size_cells: 1,
        memory_depth: None,
        reserved_container_depth: None,
        reserved_node_depth: None,
    }
}

/// One property of a node; `false` where its form is wrong.
fn walk_property(
    walk: &mut FdtWalk,
    map: &mut MemoryMap,
    strings: &[u8],
    name_offset: usize,
    value: &[u8],
) -> (entered: bool)
    requires
        name_offset <= strings@.len(),
        value@.len() <= MAX_BOOT_DATA_SIZE,
        old(walk).cursor <= MAX_BOOT_DATA_SIZE,
    ensures
        (*final(walk), final(map)@.regions, entered) == with_property(
            old(map)@.platform,
            *old(walk),
            old(map)@.regions,
            strings@,
            name_offset as int,
            value@,
        ),
        final(map)@.platform == old(map)@.platform,
        final(map)@.source == old(map)@.source,
        final(map)@.boot_data == old(map)@.boot_data,
{
    let depth: usize = walk.depth;
    let in_memory = walk.memory_depth == Some(depth);
    let in_reserved = walk.reserved_node_depth == Some(depth);
    if depth == 1 && value.len() == 4 && fdt_string_equals(
        strings,
        name_offset,
        text::literal_bytes("#address-cells"),
    ) {
        walk.address_cells = bytes::read_be32(value, 0) as usize;
    } else if depth == 1 && value.len() == 4 && fdt_string_equals(
        strings,
        name_offset,
        text::literal_bytes("#size-cells"),
    ) {
        walk.size_cells = bytes::read_be32(value, 0) as usize;
    } else if (in_memory || in_reserved) && fdt_string_equals(
        strings,
        name_offset,
        text::literal_bytes("reg"),
    ) {
        let kind = if in_memory {
            MemoryRegionKind::Usable
        } else {
            MemoryRegionKind::Reserved
        };
        if !parse_fdt_reg(value, walk.address_cells, walk.size_cells, kind, map) {
            return false;
        }
    }
    walk.cursor = align4(walk.cursor + 12 + value.len());
    true
}

/// Enters the regions of the memory and reserved-memory nodes; `false` where the
/// structure block is malformed.
fn parse_fdt_structure(structure: &[u8], offset: usize, strings: &[u8], map: &mut MemoryMap) -> (entered:
    bool)
    requires
        structure@.len() <= MAX_BOOT_DATA_SIZE,
        offset <= structure@.len(),
    ensures
        (final(map)@.regions, entered) == structure_regions(
            old(map)@.platform,
            walk_begin(offset as int),
            old(map)@.regions,
            structure@,
            strings@,
        ),
        final(map)@.platform == old(map)@.platform,
        final(map)@.source == old(map)@.source,
        final(map)@.boot_data == old(map)@.boot_data,
{
    let mut walk = FdtWalk {
        cursor: offset,
        depth: 0,
        address_cells: 2,
        size_cells: 1,
        memory_depth: None,
        reserved_container_depth: None,
        reserved_node_depth: None,
    };
    let end: usize = structure.len();
    assert(walk == walk_begin(offset as int));
    let ghost expected = structure_regions(old(map)@.platform, walk, map@.regions, structure@, strings@);
    while walk.cursor + 4 <= end
        invariant
            end == structure@.len(),
            structure@.len() <= MAX_BOOT_DATA_SIZE,
            walk.cursor <= end + 3,
            walk.depth <= walk.cursor,
            walk.reserved_container_depth matches Some(level) ==> level <= walk.cursor,
            map@.platform == old(map)@.platform,
            map@.source == old(map)@.source,
            map@.boot_data == old(map)@.boot_data,
            expected == structure_regions(
                old(map)@.platform,
                walk_begin(offset as int),
                old(map)@.regions,
                structure@,
                strings@,
            ),
            expected == structure_regions(old(map)@.platform, walk, map@.regions, structure@, strings@),
        decreases end + 3 - walk.cursor,
    {
        let ghost before = walk;
        let token: u32 = bytes::read_be32(structure, walk.cursor);
        let at: usize = walk.cursor + 4;
        if token == FDT_BEGIN_NODE {
            let found = fdt_node_name(structure, at, end);
            assert(structure@.subrange(at as int, end as int) =~= structure@.skip(at as int));
            let (name_length, name_is_memory, name_is_reserved) = match found {
                Some(found) => found,
                None => return false,
            };
            let ghost name = terminated(structure@.skip(at as int)).unwrap();
            walk.depth = walk.depth + 1;
            let depth: usize = walk.depth;
            if depth == 2 && name_is_memory {
                walk.memory_depth = Some(depth);
            }
            if depth == 2 && name_is_reserved {
                walk.reserved_container_depth = Some(depth);
            } else if let Some(level) = walk.reserved_container_depth {
                if depth == level + 1 {
                    walk.reserved_node_depth = Some(depth);
                }
            }
            walk.cursor = align4(at + name_length + 1);
            assert(walk == entered_node(before, name));
            if walk.cursor > end {
                return false;
            }
        } else if token == FDT_END_NODE {
            if walk.depth == 0 {
                return false;
            }
            let depth: usize = walk.depth;
            if walk.memory_depth == Some(depth) {
                walk.memory_depth = None;
            }
            if walk.reserved_node_depth == Some(depth) {
                walk.reserved_node_depth = None;
            }
            if walk.reserved_container_depth == Some(depth) {
                walk.reserved_container_depth = None;
            }
            walk.depth = depth - 1;
            walk.cursor = at;
            assert(walk == left_node(before));
        } else if token == FDT_PROP {
            if at + 8 > end {
                return false;
            }
            let value_size: u32 = bytes::read_be32(structure, at);
            let name_offset: u32 = bytes::read_be32(structure, at + 4);
            if value_size as usize > end - (at + 8) || name_offset as usize >= strings.len() {
                return false;
            }
            let value = slice_subrange(structure, at + 8, at + 8 + value_size as usize);
            if !walk_property(&mut walk, map, strings, name_offset as usize, value) {
                return false;
            }
        } else if token == FDT_NOP {
            walk.cursor = at;
        } else {
            return token == FDT_END && walk.depth == 0;
        }
    }
    false
}

/// The regions of the device tree at `address`.
pub open spec fn device_tree_found(memory: BootMemory, address: u64) -> Option<
    (Seq<MemoryRegion>, Option<(u64, u64)>),
> {
    let header = memory.contents(address, 40);
    let total = bytes::be32(header, 4) as int;
    let structure_offset = bytes::be32(header, 8) as int;
    let strings_offset = bytes::be32(header, 12) as int;
    let reservations_offset = bytes::be32(header, 16) as int;
    let strings_size = bytes::be32(header, 32) as int;
    let structure_size = bytes::be32(header, 36) as int;
    let blob = memory.contents(address, total);
    if address % 8 != 0 || !memory.readable(address, 40) || bytes::be32(header, 0) != FDT_MAGIC
        || total < 40 || total > MAX_BOOT_DATA_SIZE || !memory.readable(address, total)
        || !in_blob(structure_offset, structure_size, total) || !in_blob(
        strings_offset,
        strings_size,
        total,
    ) || reservations_offset >= total {
        None
    } else {
        match reservations(memory.platform, Seq::empty(), blob, reservations_offset) {
            (_, false) => None,
            (reserved, true) => match structure_regions(
                memory.platform,
                walk_begin(structure_offset),
                reserved,
                blob.take(structure_offset + structure_size),
                blob.subrange(strings_offset, strings_offset + strings_size),
            ) {
                (_, false) => None,
                (regions, true) => Some((regions, Some((address, (address + total) as u64)))),
            },
        }
    }
}

/// The map of the device tree at `address`.
pub fn parse_device_tree(memory: &BootMemory, address: u64) -> (map: MemoryMap)
    ensures
        map_from(memory.platform, map@, MemorySource::DeviceTree, device_tree_found(*memory, address)),
{
    let source = MemorySource::DeviceTree;
    let mut map = MemoryMap::new(memory.platform, source);
    let header = match memory.get(address, 40) {
        Some(header) => header,
        None => return map,
    };
    if address % 8 != 0 || bytes::read_be32(header, 0) != FDT_MAGIC {
        return map;
    }
    let total_size: u64 = bytes::read_be32(header, 4) as u64;
    if total_size < 40 || total_size > MAX_BOOT_DATA_SIZE {
        return map;
    }
    let blob = match memory.get(address, total_size) {
        Some(blob) => blob,
        None => return map,
    };
    let structure_offset: u32 = bytes::read_be32(header, 8);
    let strings_offset: u32 = bytes::read_be32(header, 12);
    let reservations_offset: u32 = bytes::read_be32(header, 16);
    let strings_size: u32 = bytes::read_be32(header, 32);
    let structure_size: u32 = bytes::read_be32(header, 36);
    if !fdt_range_valid(structure_offset as u64, structure_size as u64, total_size)
        || !fdt_range_valid(strings_offset as u64, strings_size as u64, total_size)
        || reservations_offset as u64 >= total_size {
        return map;
    }
    map.set_boot_data(address, address + total_size);
    let structure_end: usize = (structure_offset + structure_size) as usize;
    let strings_end: usize = (strings_offset + strings_size) as usize;
    let structure = slice_subrange(blob, 0, structure_end);
    let strings = slice_subrange(blob, strings_offset as usize, strings_end);
    assert(structure@ =~= blob@.take(structure_end as int));
    if !parse_fdt_reservations(blob, reservations_offset as usize, &mut map) {
        return MemoryMap::new(memory.platform, source);
    }
    if !parse_fdt_structure(structure, structure_offset as usize, strings, &mut map) {
        return MemoryMap::new(memory.platform, source);
    }
    map.normalize();
    map
}

} // verus!

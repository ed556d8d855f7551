//! What holds of the memory that firmware describes.
use super::super::memory_map;
use super::super::memory_map::{covered_as, holds, MemoryRegion, MemoryRegionKind, MemorySource};
use super::{descriptor_regions, multiboot_entries, with_descriptor};
use crate::arch::Platform;
use crate::bytes;
use vstd::prelude::*;

verus! {

/// The number that bytes are, the lowest first.
pub open spec fn number(data: Seq<u8>, at: int, count: nat) -> int
    decreases count,
{
    if count == 0 {
        0
    } else {
        data[at] + 256 * number(data, at + 1, (count - 1) as nat)
    }
}

proof fn lemma_number(data: Seq<u8>, at: int)
    requires
        0 <= at,
        at + 8 <= data.len(),
    ensures
        bytes::le32(data, at) == number(data, at, 4),
        bytes::le64(data, at) == number(data, at, 8),
{
    reveal_with_fuel(number, 9);
}

proof fn lemma_short_number(data: Seq<u8>, at: int)
    requires
        0 <= at,
        at + 4 <= data.len(),
    ensures
        bytes::le32(data, at) == number(data, at, 4),
{
    reveal_with_fuel(number, 5);
}

/// What the BIOS calls memory of a kind.
pub open spec fn bios_says(number: int, kind: MemoryRegionKind) -> bool {
    match kind {
        MemoryRegionKind::Usable => number == 1,
        MemoryRegionKind::AcpiReclaimable => number == 3,
        MemoryRegionKind::AcpiNonVolatile => number == 4,
        MemoryRegionKind::Bad => number == 5,
        MemoryRegionKind::Reserved => number != 1 && number != 3 && number != 4 && number != 5,
        MemoryRegionKind::Bootloader => false,
    }
}

/// What UEFI calls memory of a kind; what its services need at run time is reserved.
pub open spec fn uefi_says(number: int, runtime: bool, kind: MemoryRegionKind) -> bool {
    match kind {
        MemoryRegionKind::Usable => !runtime && number == 7,
        MemoryRegionKind::Bootloader => !runtime && 1 <= number <= 4,
        MemoryRegionKind::AcpiReclaimable => !runtime && number == 9,
        MemoryRegionKind::AcpiNonVolatile => !runtime && number == 10,
        MemoryRegionKind::Bad => !runtime && number == 8,
        MemoryRegionKind::Reserved => runtime || number == 0 || number == 5 || number == 6 || number
            > 10,
    }
}

/// Whether a descriptor at `at` says of an address that it is memory of a kind.
pub open spec fn describes(
    source: MemorySource,
    table: Seq<u8>,
    at: int,
    address: int,
    kind: MemoryRegionKind,
) -> bool {
    match source {
        MemorySource::BiosE820 => {
            &&& table[at + 20] % 2 == 1
            &&& bios_says(number(table, at + 16, 4), kind)
            &&& number(table, at, 8) <= address < number(table, at, 8) + number(table, at + 8, 8)
        },
        MemorySource::Uefi => {
            &&& uefi_says(number(table, at, 4), table[at + 39] >= 128, kind)
            &&& number(table, at + 24, 8) * 4096 <= u64::MAX
            &&& number(table, at + 8, 8) <= address < number(table, at + 8, 8) + number(
                table,
                at + 24,
                8,
            ) * 4096
        },
        _ => false,
    }
}

/// Entering a region makes the addresses in it that the machine can use memory of its kind.
proof fn lemma_pushed(
    platform: Platform,
    regions: Seq<MemoryRegion>,
    start: u64,
    length: u64,
    kind: MemoryRegionKind,
    address: int,
    asked: MemoryRegionKind,
)
    ensures
        memory_map::pushed(platform, regions, start, length, kind) matches Some(after) ==> (
        covered_as(after, address, asked) <==> (covered_as(regions, address, asked) || (asked
            == kind && start <= address < start + length && address
            < platform.spec_memory_limit()))),
{
    if let Some(after) = memory_map::pushed(platform, regions, start, length, kind) {
        if covered_as(regions, address, asked) {
            let i = choose|i: int| holds(regions, i, address, asked);
            assert(holds(after, i, address, asked));
        }
        if asked == kind && start <= address < start + length && address
            < platform.spec_memory_limit() {
            assert(holds(after, regions.len() as int, address, asked));
        }
        if covered_as(after, address, asked) {
            let i = choose|i: int| holds(after, i, address, asked);
            if i < regions.len() {
                assert(holds(regions, i, address, asked));
            }
        }
    }
}

/// An address is memory of a kind among the regions of a table of descriptors just where one of
/// the descriptors says so and the machine can use it.
#[verifier::spinoff_prover]
#[verifier::rlimit(40)]
pub proof fn law_descriptors_tell_the_memory(
    platform: Platform,
    table: Seq<u8>,
    size: int,
    count: nat,
    source: MemorySource,
    address: int,
    kind: MemoryRegionKind,
)
    requires
        0 < size,
        size * count <= table.len(),
    ensures
        descriptor_regions(platform, table, size, count, source) matches Some(regions) ==> (
        covered_as(regions, address, kind) <==> address < platform.spec_memory_limit() && exists|
            i: int,
        |
            0 <= i < count && #[trigger] describes(source, table, i * size, address, kind)),
    decreases count,
{
    if count > 0 {
        let fewer = (count - 1) as nat;
        let at = fewer * size;
        assert(at + size == size * count && 0 <= at && size * fewer == at) by (nonlinear_arith)
            requires
                at == fewer * size,
                fewer + 1 == count,
                0 < size,
        ;
        law_descriptors_tell_the_memory(platform, table, size, fewer, source, address, kind);
        if let Some(regions) = descriptor_regions(platform, table, size, count, source) {
            let before = descriptor_regions(platform, table, size, fewer, source).unwrap();
            lemma_described(
                platform,
                before,
                table,
                size,
                fewer as int,
                at,
                source,
                address,
                kind,
            );
            assert(describes(source, table, fewer as int * size, address, kind) == describes(
                source,
                table,
                at,
                address,
                kind,
            ));
            if exists|i: int|
                0 <= i < count && #[trigger] describes(source, table, i * size, address, kind) {
                let i = choose|i: int|
                    0 <= i < count && #[trigger] describes(source, table, i * size, address, kind);
                if i < fewer {
                    assert(0 <= i < fewer && describes(source, table, i * size, address, kind));
                }
            }
            if exists|i: int|
                0 <= i < fewer && #[trigger] describes(source, table, i * size, address, kind) {
                let i = choose|i: int|
                    0 <= i < fewer && #[trigger] describes(source, table, i * size, address, kind);
                assert(0 <= i < count && describes(source, table, i * size, address, kind));
            }
        }
    } else {
        if let Some(regions) = descriptor_regions(platform, table, size, count, source) {
            assert(!covered_as(regions, address, kind));
        }
    }
}

/// One descriptor adds what it says.
#[verifier::spinoff_prover]
proof fn lemma_described(
    platform: Platform,
    before: Seq<MemoryRegion>,
    table: Seq<u8>,
    size: int,
    index: int,
    at: int,
    source: MemorySource,
    address: int,
    kind: MemoryRegionKind,
)
    requires
        0 <= at,
        at + size <= table.len(),
        at == index * size,
    ensures
        with_descriptor(platform, before, table, size, index, source) matches Some(after) ==> (
        covered_as(after, address, kind) <==> (covered_as(before, address, kind) || (address
            < platform.spec_memory_limit() && describes(source, table, at, address, kind)))),
{
    match source {
        MemorySource::BiosE820 => {
            if size >= 24 {
                lemma_number(table, at);
                lemma_number(table, at + 8);
                lemma_number(table, at + 16);
                lemma_short_number(table, at + 20);
                reveal_with_fuel(number, 5);
                lemma_pushed(
                    platform,
                    before,
                    bytes::le64(table, at),
                    bytes::le64(table, at + 8),
                    super::e820_meaning(bytes::le32(table, at + 16)),
                    address,
                    kind,
                );
            }
        },
        MemorySource::Uefi => {
            if size >= 40 {
                lemma_number(table, at);
                lemma_number(table, at + 8);
                lemma_number(table, at + 24);
                lemma_number(table, at + 32);
                lemma_highest(table, at + 32);
                lemma_pushed(
                    platform,
                    before,
                    bytes::le64(table, at + 8),
                    (bytes::le64(table, at + 24) * 4096) as u64,
                    super::uefi_meaning(
                        bytes::le32(table, at),
                        bytes::le64(table, at + 32),
                    ),
                    address,
                    kind,
                );
            }
        },
        _ => {},
    }
}

/// Whether an entry of a Multiboot2 memory map says of an address that it is memory of a kind.
pub open spec fn entry_describes(
    tag: Seq<u8>,
    at: int,
    address: int,
    kind: MemoryRegionKind,
) -> bool {
    &&& bios_says(number(tag, at + 16, 4), kind)
    &&& number(tag, at, 8) <= address < number(tag, at, 8) + number(tag, at + 8, 8)
}

/// Whether one of the entries from `offset` on says so.
pub open spec fn entries_describe(
    tag: Seq<u8>,
    size: int,
    offset: int,
    address: int,
    kind: MemoryRegionKind,
) -> bool {
    exists|i: int|
        0 <= i && offset + i * size + size <= tag.len() && #[trigger] entry_describes(
            tag,
            offset + i * size,
            address,
            kind,
        )
}

/// An address is memory of a kind after the entries of a Multiboot2 memory map just where it was
/// before, or where an entry says so and the machine can use it.
#[verifier::spinoff_prover]
#[verifier::rlimit(40)]
pub proof fn law_multiboot_entries_tell_the_memory(
    platform: Platform,
    regions: Seq<MemoryRegion>,
    tag: Seq<u8>,
    size: int,
    offset: int,
    address: int,
    kind: MemoryRegionKind,
)
    requires
        24 <= size,
        0 <= offset,
    ensures
        multiboot_entries(platform, regions, tag, size, offset) matches Some(after) ==> (
        covered_as(after, address, kind) <==> (covered_as(regions, address, kind) || (address
            < platform.spec_memory_limit() && entries_describe(
            tag,
            size,
            offset,
            address,
            kind,
        )))),
    decreases tag.len() - offset,
{
    let start = bytes::le64(tag, offset);
    let length = bytes::le64(tag, offset + 8);
    let meaning = super::e820_meaning(bytes::le32(tag, offset + 16));
    let next = offset + size;
    if offset + size > tag.len() {
        if entries_describe(tag, size, offset, address, kind) {
            let i = choose|i: int|
                0 <= i && offset + i * size + size <= tag.len() && #[trigger] entry_describes(
                    tag,
                    offset + i * size,
                    address,
                    kind,
                );
            assert(i * size >= 0) by (nonlinear_arith)
                requires
                    i >= 0,
                    size >= 24,
            ;
        }
    } else {
        lemma_number(tag, offset);
        lemma_number(tag, offset + 8);
        lemma_number(tag, offset + 16);
        lemma_pushed(platform, regions, start, length, meaning, address, kind);
        if let Some(more) = memory_map::pushed(platform, regions, start, length, meaning) {
            law_multiboot_entries_tell_the_memory(
                platform,
                more,
                tag,
                size,
                next,
                address,
                kind,
            );
        }
        if entries_describe(tag, size, offset, address, kind) {
            let i = choose|i: int|
                0 <= i && offset + i * size + size <= tag.len() && #[trigger] entry_describes(
                    tag,
                    offset + i * size,
                    address,
                    kind,
                );
            if i == 0 {
                assert(entry_describes(tag, offset, address, kind));
            } else {
                assert(next + (i - 1) * size == offset + i * size) by (nonlinear_arith)
                    requires
                        next == offset + size,
                ;
                assert(entry_describes(tag, next + (i - 1) * size, address, kind));
                assert(entries_describe(tag, size, next, address, kind));
            }
        }
        if entries_describe(tag, size, next, address, kind) {
            let i = choose|i: int|
                0 <= i && next + i * size + size <= tag.len() && #[trigger] entry_describes(
                    tag,
                    next + i * size,
                    address,
                    kind,
                );
            assert(next + i * size == offset + (i + 1) * size) by (nonlinear_arith)
                requires
                    next == offset + size,
            ;
            assert(entry_describes(tag, offset + (i + 1) * size, address, kind));
        }
        if entry_describes(tag, offset, address, kind) {
            assert(offset + 0 * size == offset);
            assert(entry_describes(tag, offset + 0 * size, address, kind));
        }
    }
}

proof fn lemma_highest(data: Seq<u8>, at: int)
    requires
        0 <= at,
        at + 8 <= data.len(),
    ensures
        bytes::le64(data, at) >= 0x8000_0000_0000_0000 <==> data[at + 7] >= 128,
{
}

} // verus!

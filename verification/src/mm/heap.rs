//! The heap of the kernel: a list of free regions in the order of their addresses, the
//! first that fits is used, and neighbours are joined again.
use crate::mm::address::{VirtualAddress, PAGE_SIZE};
use crate::mm::paging;
use crate::mm::paging::protection;
use crate::mm::paging::{
    ActivePageTable, MapFlags, ENTRY_GLOBAL, ENTRY_NO_EXECUTE, ENTRY_PRESENT, ENTRY_WRITABLE,
};
use crate::mm::physical::{MemoryView, PageMemory};
use vstd::prelude::*;

verus! {

pub const HEAP_START: u64 = 0xffff_9000_0000_0000;

pub const HEAP_SIZE: u64 = 0x40_0000;

pub const HEAP_END: u64 = 0xffff_9000_0040_0000;

/// The size of the header before each block that is handed out.
pub const HEADER_SIZE: u64 = 24;

/// The size of the smallest free region, and how regions are aligned.
pub const MINIMUM_REGION: u64 = 16;

pub const REGION_ALIGNMENT: u64 = 8;

#[derive(Clone, Copy, Debug, PartialEq, Eq, Structural)]
pub enum HeapError {
    AlreadyInitialized,
    MapFailed,
    OutOfMemory,
}

#[derive(Clone, Copy, Debug, PartialEq, Eq, Structural)]
pub struct HeapStats {
    pub size: u64,
    pub used: u64,
    pub peak: u64,
    pub allocations: u64,
    pub oom_events: u64,
    pub self_test: bool,
}

/// What a caller asks for: so many bytes, at a multiple of a power of two.
#[derive(Clone, Copy, Debug, PartialEq, Eq, Structural)]
pub struct Layout {
    pub size: u64,
    pub align: u64,
}

#[derive(Clone, Copy, Debug, PartialEq, Eq, Structural)]
pub struct FreeRegion {
    pub start: u64,
    pub size: u64,
}

/// A block that was handed out: where the user's part starts, and the part of the heap
/// that it takes with its header.
#[derive(Clone, Copy, Debug, PartialEq, Eq, Structural)]
pub struct Block {
    pub user_start: u64,
    pub block_start: u64,
    pub block_size: u64,
}

/// The state of the heap.
#[verifier::ext_equal]
pub struct HeapView {
    pub regions: Seq<FreeRegion>,
    pub blocks: Seq<Block>,
    pub size: u64,
    pub used: u64,
    pub peak: u64,
    pub allocations: u64,
    pub initialized: bool,
}

/// How many bytes the regions hold.
pub open spec fn free_bytes(regions: Seq<FreeRegion>) -> int
    decreases regions.len(),
{
    if regions.len() == 0 {
        0
    } else {
        free_bytes(regions.drop_last()) + regions.last().size
    }
}

/// How many bytes the blocks take.
pub open spec fn taken_bytes(blocks: Seq<Block>) -> int
    decreases blocks.len(),
{
    if blocks.len() == 0 {
        0
    } else {
        taken_bytes(blocks.drop_last()) + blocks.last().block_size
    }
}

/// Whether a byte is free.
pub open spec fn is_free(regions: Seq<FreeRegion>, at: int) -> bool {
    exists|i: int|
        0 <= i < regions.len() && (#[trigger] regions[i]).start <= at < regions[i].start
            + regions[i].size
}

/// Whether a block takes a byte.
pub open spec fn takes(block: Block, at: int) -> bool {
    block.block_start <= at < block.block_start + block.block_size
}

/// A region that can stand in the list.
pub open spec fn region_ok(region: FreeRegion) -> bool {
    &&& region.size >= MINIMUM_REGION
    &&& region.size % REGION_ALIGNMENT == 0
    &&& region.start % REGION_ALIGNMENT == 0
    &&& HEAP_START <= region.start
    &&& region.start + region.size <= HEAP_END
}

/// The regions are in order, and none touches the next.
pub open spec fn regions_ok(regions: Seq<FreeRegion>) -> bool {
    &&& forall|i: int| 0 <= i < regions.len() ==> region_ok(#[trigger] regions[i])
    &&& forall|i: int, j: int|
        0 <= i < j < regions.len() ==> (#[trigger] regions[i]).start + regions[i].size < (
        #[trigger] regions[j]).start
}

pub open spec fn block_ok(block: Block) -> bool {
    &&& block.block_start + HEADER_SIZE == block.user_start
    &&& block.block_size > HEADER_SIZE
    &&& block.block_size % REGION_ALIGNMENT == 0
    &&& block.block_start % REGION_ALIGNMENT == 0
    &&& HEAP_START <= block.block_start
    &&& block.block_start + block.block_size <= HEAP_END
}

impl HeapView {
    pub open spec fn empty() -> Self {
        HeapView {
            regions: Seq::empty(),
            blocks: Seq::empty(),
            size: 0,
            used: 0,
            peak: 0,
            allocations: 0,
            initialized: false,
        }
    }

    /// No byte is free and taken, or taken twice; and every byte of the heap is free or
    /// taken.
    pub open spec fn wf(self) -> bool {
        &&& regions_ok(self.regions)
        &&& forall|i: int| 0 <= i < self.blocks.len() ==> block_ok(#[trigger] self.blocks[i])
        &&& forall|i: int, j: int|
            0 <= i < j < self.blocks.len() ==> (#[trigger] self.blocks[i]).block_start
                + self.blocks[i].block_size <= (#[trigger] self.blocks[j]).block_start
                || self.blocks[j].block_start + self.blocks[j].block_size
                <= self.blocks[i].block_start
        &&& forall|i: int, at: int|
            0 <= i < self.blocks.len() && #[trigger] takes(self.blocks[i], at) ==> !is_free(
                self.regions,
                at,
            )
        &&& self.used == taken_bytes(self.blocks)
        &&& self.allocations == self.blocks.len()
        &&& free_bytes(self.regions) + taken_bytes(self.blocks) == self.size
        &&& self.size <= HEAP_SIZE
        &&& self.used <= self.peak <= self.size
        &&& !self.initialized ==> self.size == 0 && self.blocks.len() == 0 && self.regions.len() == 0
    }
}

/// How many regions start before an address.
pub open spec fn regions_before(regions: Seq<FreeRegion>, address: int, count: nat) -> int
    decreases count,
{
    if count == 0 {
        0
    } else if regions[count - 1].start < address {
        count as int
    } else {
        regions_before(regions, address, (count - 1) as nat)
    }
}

/// Two neighbours as one.
pub open spec fn joined(a: FreeRegion, b: FreeRegion) -> FreeRegion {
    FreeRegion { start: a.start, size: (a.size + b.size) as u64 }
}

/// The list with a region at place `at`, joined with its neighbours.
#[verifier::opaque]
pub open spec fn placed(regions: Seq<FreeRegion>, at: int, region: FreeRegion) -> Seq<FreeRegion> {
    let with = regions.insert(at, region);
    let joined_next = if at + 1 < with.len() && region.start + region.size == with[at + 1].start {
        with.update(at, joined(region, with[at + 1])).remove(at + 1)
    } else {
        with
    };
    if at > 0 && joined_next[at - 1].start + joined_next[at - 1].size == joined_next[at].start {
        joined_next.update(at - 1, joined(joined_next[at - 1], joined_next[at])).remove(at)
    } else {
        joined_next
    }
}

/// The list with a region given back; one that cannot stand there is dropped.
pub open spec fn inserted(regions: Seq<FreeRegion>, region: FreeRegion) -> Seq<FreeRegion> {
    let at = regions_before(regions, region.start as int, regions.len());
    let end = region.start + region.size;
    if region.size < MINIMUM_REGION || region.start % REGION_ALIGNMENT != 0 || region.start
        < HEAP_START || end > HEAP_END {
        regions
    } else if at > 0 && regions[at - 1].start + regions[at - 1].size > region.start {
        regions
    } else if at < regions.len() && end > regions[at].start {
        regions
    } else {
        placed(regions, at, region)
    }
}

/// How a request fits in a region: not at all, or with this start of the user's part and
/// this end of the block. A computation that runs out of numbers ends the search.
#[derive(Clone, Copy, Debug, PartialEq, Eq, Structural)]
pub enum Fit {
    Overflow,
    TooSmall,
    Fits { user_start: u64, block_end: u64 },
}

/// A number rounded up to a multiple.
pub open spec fn rounded_up(value: int, alignment: int) -> int {
    let sum = value + alignment - 1;
    sum - sum % alignment
}

#[verifier::opaque]
pub open spec fn fit(region: FreeRegion, requested: u64, alignment: u64) -> Fit {
    let region_end = region.start + region.size;
    let base = region.start + HEADER_SIZE;
    let first = rounded_up(base, alignment as int);
    let prefix = first - base;
    let user_start = if 0 < prefix < MINIMUM_REGION {
        first + alignment
    } else {
        first
    };
    let raw_end = user_start + requested;
    let end = rounded_up(raw_end, 8);
    if region_end > u64::MAX || base + alignment - 1 > u64::MAX || user_start > u64::MAX || raw_end
        + 7 > u64::MAX {
        Fit::Overflow
    } else if end > region_end {
        Fit::TooSmall
    } else {
        Fit::Fits {
            user_start: user_start as u64,
            block_end: (if region_end - end < MINIMUM_REGION {
                region_end
            } else {
                end
            }) as u64,
        }
    }
}

/// The first region from `from` on that a request is not too large for.
pub open spec fn first_fit(
    regions: Seq<FreeRegion>,
    requested: u64,
    alignment: u64,
    from: int,
) -> int
    decreases regions.len() - from,
{
    if from >= regions.len() || from < 0 {
        regions.len() as int
    } else if fit(regions[from], requested, alignment) is TooSmall {
        first_fit(regions, requested, alignment, from + 1)
    } else {
        from
    }
}

/// The alignment that a block gets.
pub open spec fn block_alignment(layout: Layout) -> u64 {
    if layout.align < REGION_ALIGNMENT {
        REGION_ALIGNMENT
    } else {
        layout.align
    }
}

/// The regions after a block was cut out of region `at`.
#[verifier::opaque]
pub open spec fn cut(
    regions: Seq<FreeRegion>,
    at: int,
    block_start: u64,
    block_end: u64,
) -> Seq<FreeRegion> {
    let region = regions[at];
    let region_end = (region.start + region.size) as u64;
    let prefix = (block_start - region.start) as u64;
    let without = regions.remove(at);
    let before = if prefix >= MINIMUM_REGION {
        inserted(without, FreeRegion { start: region.start, size: prefix })
    } else {
        without
    };
    if block_end < region_end {
        inserted(
            before,
            FreeRegion { start: block_end, size: (region_end - block_end) as u64 },
        )
    } else {
        before
    }
}

/// Asking for a block.
pub open spec fn allocated(heap: HeapView, layout: Layout) -> (HeapView, Option<u64>) {
    let alignment = block_alignment(layout);
    let at = first_fit(heap.regions, layout.size, alignment, 0);
    if !heap.initialized || layout.size == 0 || at >= heap.regions.len() {
        (heap, None)
    } else {
        match fit(heap.regions[at], layout.size, alignment) {
            Fit::Fits { user_start, block_end } => {
                let block_start = (user_start - HEADER_SIZE) as u64;
                let block_size = (block_end - block_start) as u64;
                let used = (heap.used + block_size) as u64;
                (
                    HeapView {
                        regions: cut(heap.regions, at, block_start, block_end),
                        blocks: heap.blocks.push(Block { user_start, block_start, block_size }),
                        used,
                        peak: if used > heap.peak {
                            used
                        } else {
                            heap.peak
                        },
                        allocations: (heap.allocations + 1) as u64,
                        ..heap
                    },
                    Some(user_start),
                )
            },
            _ => (heap, None),
        }
    }
}

/// The first block from `from` on whose user's part starts at an address.
pub open spec fn block_at(blocks: Seq<Block>, address: u64, from: int) -> int
    decreases blocks.len() - from,
{
    if from >= blocks.len() || from < 0 {
        blocks.len() as int
    } else if blocks[from].user_start == address {
        from
    } else {
        block_at(blocks, address, from + 1)
    }
}

/// Giving a block back, and the part of the heap to clear; an address that is no block
/// is ignored.
pub open spec fn deallocated(heap: HeapView, address: u64) -> (HeapView, Option<Block>) {
    let at = block_at(heap.blocks, address, 0);
    if !heap.initialized || at >= heap.blocks.len() {
        (heap, None)
    } else {
        let block = heap.blocks[at];
        (
            HeapView {
                regions: inserted(
                    heap.regions,
                    FreeRegion { start: block.block_start, size: block.block_size },
                ),
                blocks: heap.blocks.remove(at),
                used: (heap.used - block.block_size) as u64,
                allocations: (heap.allocations - 1) as u64,
                ..heap
            },
            Some(block),
        )
    }
}

/// Giving the heap its memory.
pub open spec fn started(heap: HeapView, start: u64, size: u64) -> (
    HeapView,
    Result<(), HeapError>,
) {
    if heap.initialized {
        (heap, Err(HeapError::AlreadyInitialized))
    } else {
        (
            HeapView {
                size,
                initialized: true,
                regions: inserted(heap.regions, FreeRegion { start, size }),
                ..heap
            },
            Ok(()),
        )
    }
}

pub proof fn lemma_regions_before(regions: Seq<FreeRegion>, address: int, count: nat)
    requires
        regions_ok(regions),
        count <= regions.len(),
    ensures
        0 <= regions_before(regions, address, count) <= count,
        forall|i: int|
            0 <= i < regions_before(regions, address, count) ==> (#[trigger] regions[i]).start
                < address,
        forall|i: int|
            regions_before(regions, address, count) <= i < count ==> (#[trigger] regions[i]).start
                >= address,
    decreases count,
{
    if count > 0 && regions[count - 1].start >= address {
        lemma_regions_before(regions, address, (count - 1) as nat);
    }
}

proof fn lemma_free_bytes_insert(regions: Seq<FreeRegion>, at: int, region: FreeRegion)
    requires
        0 <= at <= regions.len(),
    ensures
        free_bytes(regions.insert(at, region)) == free_bytes(regions) + region.size,
    decreases regions.len(),
{
    let with = regions.insert(at, region);
    if at == regions.len() {
        assert(with.drop_last() =~= regions);
    } else {
        lemma_free_bytes_insert(regions.drop_last(), at, region);
        assert(with.drop_last() =~= regions.drop_last().insert(at, region));
        assert(with.last() == regions.last());
    }
}

proof fn lemma_free_bytes_remove(regions: Seq<FreeRegion>, at: int)
    requires
        0 <= at < regions.len(),
    ensures
        free_bytes(regions.remove(at)) == free_bytes(regions) - regions[at].size,
{
    lemma_free_bytes_insert(regions.remove(at), at, regions[at]);
    assert(regions.remove(at).insert(at, regions[at]) =~= regions);
}

proof fn lemma_free_bytes_update(regions: Seq<FreeRegion>, at: int, region: FreeRegion)
    requires
        0 <= at < regions.len(),
    ensures
        free_bytes(regions.update(at, region)) == free_bytes(regions) - regions[at].size
            + region.size,
{
    lemma_free_bytes_remove(regions, at);
    lemma_free_bytes_insert(regions.remove(at), at, region);
    assert(regions.remove(at).insert(at, region) =~= regions.update(at, region));
}

proof fn lemma_taken_bytes_remove(blocks: Seq<Block>, at: int)
    requires
        0 <= at < blocks.len(),
    ensures
        taken_bytes(blocks.remove(at)) == taken_bytes(blocks) - blocks[at].block_size,
    decreases blocks.len(),
{
    let without = blocks.remove(at);
    if at == blocks.len() - 1 {
        assert(without =~= blocks.drop_last());
    } else {
        lemma_taken_bytes_remove(blocks.drop_last(), at);
        assert(without.drop_last() =~= blocks.drop_last().remove(at));
        assert(without.last() == blocks.last());
    }
}

proof fn lemma_taken_bytes_bound(blocks: Seq<Block>, at: int)
    requires
        0 <= at < blocks.len(),
    ensures
        0 <= blocks[at].block_size <= taken_bytes(blocks),
    decreases blocks.len(),
{
    lemma_taken_bytes_positive(blocks.drop_last());
    if at < blocks.len() - 1 {
        lemma_taken_bytes_bound(blocks.drop_last(), at);
    }
}

proof fn lemma_taken_bytes_positive(blocks: Seq<Block>)
    ensures
        taken_bytes(blocks) >= 0,
    decreases blocks.len(),
{
    if blocks.len() > 0 {
        lemma_taken_bytes_positive(blocks.drop_last());
    }
}

proof fn lemma_free_bytes_positive(regions: Seq<FreeRegion>)
    ensures
        free_bytes(regions) >= 0,
    decreases regions.len(),
{
    if regions.len() > 0 {
        lemma_free_bytes_positive(regions.drop_last());
    }
}

/// A region that can stand at a place of the list.
spec fn fits_between(regions: Seq<FreeRegion>, at: int, region: FreeRegion) -> bool {
    &&& regions_ok(regions)
    &&& region_ok(region)
    &&& 0 <= at <= regions.len()
    &&& forall|i: int|
        0 <= i < at ==> (#[trigger] regions[i]).start + regions[i].size <= region.start
    &&& forall|i: int|
        at <= i < regions.len() ==> region.start + region.size <= (#[trigger] regions[i]).start
}

/// Whether the region touches the one behind it.
spec fn touches_next(regions: Seq<FreeRegion>, at: int, region: FreeRegion) -> bool {
    at < regions.len() && region.start + region.size == regions[at].start
}

/// Whether the region touches the one before it.
spec fn touches_previous(regions: Seq<FreeRegion>, at: int, region: FreeRegion) -> bool {
    at > 0 && regions[at - 1].start + regions[at - 1].size == region.start
}

/// The region with the one behind it, if they touch.
spec fn grown(regions: Seq<FreeRegion>, at: int, region: FreeRegion) -> FreeRegion {
    if touches_next(regions, at, region) {
        joined(region, regions[at])
    } else {
        region
    }
}

/// What stands at each place of the new list.
proof fn lemma_placed_at(regions: Seq<FreeRegion>, at: int, region: FreeRegion)
    requires
        fits_between(regions, at, region),
    ensures
        ({
            let last = placed(regions, at, region);
            let next = touches_next(regions, at, region);
            let previous = touches_previous(regions, at, region);
            let skip = if next {
                1int
            } else {
                0int
            };
            let here = if previous {
                at - 1
            } else {
                at
            };
            let region_here = if previous {
                joined(regions[at - 1], grown(regions, at, region))
            } else {
                grown(regions, at, region)
            };
            &&& last.len() == regions.len() + 1 - skip - (at - here)
            &&& 0 <= here < last.len()
            &&& last[here] == region_here
            &&& forall|i: int| 0 <= i < here ==> #[trigger] last[i] == regions[i]
            &&& forall|i: int|
                here < i < last.len() ==> #[trigger] last[i] == regions[i - here - 1 + at + skip]
        }),
{
    reveal(placed);
    let with = regions.insert(at, region);
    let next = touches_next(regions, at, region);
    if at < regions.len() {
        assert(with[at + 1] == regions[at]);
    }
    let second = if next {
        with.update(at, joined(region, with[at + 1])).remove(at + 1)
    } else {
        with
    };
    assert(second[at] == grown(regions, at, region));
    if at > 0 {
        assert(second[at - 1] == regions[at - 1]);
    }
}

/// The new list holds as many bytes more as the region has.
proof fn lemma_placed_bytes(regions: Seq<FreeRegion>, at: int, region: FreeRegion)
    requires
        fits_between(regions, at, region),
    ensures
        free_bytes(placed(regions, at, region)) == free_bytes(regions) + region.size,
{
    reveal(placed);
    let with = regions.insert(at, region);
    lemma_free_bytes_insert(regions, at, region);
    let next = touches_next(regions, at, region);
    if at < regions.len() {
        assert(with[at + 1] == regions[at]);
        assert(region_ok(regions[at]));
    }
    let second = if next {
        with.update(at, joined(region, with[at + 1])).remove(at + 1)
    } else {
        with
    };
    if next {
        lemma_free_bytes_update(with, at, joined(region, with[at + 1]));
        lemma_free_bytes_remove(with.update(at, joined(region, with[at + 1])), at + 1);
    }
    assert(second[at] == grown(regions, at, region));
    if at > 0 {
        assert(second[at - 1] == regions[at - 1]);
        assert(region_ok(regions[at - 1]));
        if touches_previous(regions, at, region) {
            lemma_free_bytes_update(second, at - 1, joined(second[at - 1], second[at]));
            lemma_free_bytes_remove(
                second.update(at - 1, joined(second[at - 1], second[at])),
                at,
            );
        }
    }
}

/// The bytes of the region and no others become free.
proof fn lemma_placed_free(regions: Seq<FreeRegion>, at: int, region: FreeRegion, byte: int)
    requires
        fits_between(regions, at, region),
    ensures
        is_free(placed(regions, at, region), byte) <==> is_free(regions, byte) || region.start
            <= byte < region.start + region.size,
{
    lemma_placed_at(regions, at, region);
    let last = placed(regions, at, region);
    let next = touches_next(regions, at, region);
    let previous = touches_previous(regions, at, region);
    let skip = if next {
        1int
    } else {
        0int
    };
    let here = if previous {
        at - 1
    } else {
        at
    };
    if at > 0 {
        assert(region_ok(regions[at - 1]));
    }
    if at < regions.len() {
        assert(region_ok(regions[at]));
    }
    if is_free(last, byte) {
        let i = choose|i: int|
            0 <= i < last.len() && (#[trigger] last[i]).start <= byte < last[i].start
                + last[i].size;
        if i < here {
            assert(last[i] == regions[i]);
        } else if i > here {
            assert(last[i] == regions[i - here - 1 + at + skip]);
        } else {
            if previous && byte < region.start {
                assert(regions[at - 1].start <= byte);
            }
            if next && byte >= region.start + region.size {
                assert(regions[at].start <= byte);
            }
        }
    }
    if region.start <= byte < region.start + region.size {
        assert(last[here].start <= byte);
    }
    if is_free(regions, byte) {
        let i = choose|i: int|
            0 <= i < regions.len() && (#[trigger] regions[i]).start <= byte < regions[i].start
                + regions[i].size;
        if i < here {
            assert(last[i] == regions[i]);
        } else if i >= at + skip {
            let k = i - at - skip + here + 1;
            assert(last[k] == regions[k - here - 1 + at + skip]);
        } else {
            assert(last[here].start <= byte);
        }
    }
}

/// Each region of the new list has a size and an end.
#[verifier::spinoff_prover]
proof fn lemma_placed_region(regions: Seq<FreeRegion>, at: int, region: FreeRegion, i: int)
    requires
        fits_between(regions, at, region),
        0 <= i < placed(regions, at, region).len(),
    ensures
        region_ok(placed(regions, at, region)[i]),
{
    lemma_placed_at(regions, at, region);
    let last = placed(regions, at, region);
    if at > 0 {
        assert(region_ok(regions[at - 1]));
    }
    if at < regions.len() {
        assert(region_ok(regions[at]));
    }
    let next = touches_next(regions, at, region);
    let previous = touches_previous(regions, at, region);
    let skip = if next {
        1int
    } else {
        0int
    };
    let here = if previous {
        at - 1
    } else {
        at
    };
    if i > here {
        assert(last[i] == regions[i - here - 1 + at + skip]);
    } else if i < here {
        assert(last[i] == regions[i]);
    }
}

/// A region that fits between its neighbours is taken into the list: the list stays in
/// order, and the bytes of the region and no others become free.
#[verifier::spinoff_prover]
#[verifier::rlimit(40)]
proof fn lemma_placed(regions: Seq<FreeRegion>, at: int, region: FreeRegion)
    requires
        fits_between(regions, at, region),
    ensures
        regions_ok(placed(regions, at, region)),
        free_bytes(placed(regions, at, region)) == free_bytes(regions) + region.size,
        forall|byte: int| #[trigger]
            is_free(placed(regions, at, region), byte) <==> is_free(regions, byte) || region.start
                <= byte < region.start + region.size,
{
    lemma_placed_bytes(regions, at, region);
    lemma_placed_at(regions, at, region);
    let last = placed(regions, at, region);
    assert forall|byte: int| #[trigger] is_free(last, byte) <==> is_free(regions, byte)
        || region.start <= byte < region.start + region.size by {
        lemma_placed_free(regions, at, region, byte);
    }
    assert forall|i: int| 0 <= i < last.len() implies region_ok(#[trigger] last[i]) by {
        lemma_placed_region(regions, at, region, i);
    }
    assert forall|i: int, j: int| 0 <= i < j < last.len() implies (#[trigger] last[i]).start
        + last[i].size < (#[trigger] last[j]).start by {
        lemma_placed_pair(regions, at, region, i, j);
    }
}

/// The new list is in order.
proof fn lemma_placed_pair(
    regions: Seq<FreeRegion>,
    at: int,
    region: FreeRegion,
    i: int,
    j: int,
)
    requires
        fits_between(regions, at, region),
        0 <= i < j < placed(regions, at, region).len(),
    ensures
        placed(regions, at, region)[i].start + placed(regions, at, region)[i].size < placed(
            regions,
            at,
            region,
        )[j].start,
{
    lemma_placed_at(regions, at, region);
    let last = placed(regions, at, region);
    if at > 0 {
        assert(region_ok(regions[at - 1]));
    }
    if at < regions.len() {
        assert(region_ok(regions[at]));
    }
    let next = touches_next(regions, at, region);
    let previous = touches_previous(regions, at, region);
    let skip = if next {
        1int
    } else {
        0int
    };
    let here = if previous {
        at - 1
    } else {
        at
    };
    let old_i = i - here - 1 + at + skip;
    let old_j = j - here - 1 + at + skip;
    if j < here {
        assert(last[i] == regions[i] && last[j] == regions[j]);
    } else if i > here {
        assert(last[i] == regions[old_i] && last[j] == regions[old_j]);
    } else if j == here {
        assert(last[i] == regions[i]);
        if previous {
            assert(regions[i].start + regions[i].size < regions[at - 1].start);
        } else if i < at - 1 {
            assert(regions[i].start + regions[i].size < regions[at - 1].start);
        } else {
            assert(regions[i].start + regions[i].size <= region.start);
        }
    } else if i < here {
        assert(last[i] == regions[i] && last[j] == regions[old_j]);
        assert(regions[i].start + regions[i].size < regions[old_j].start);
    } else {
        assert(last[j] == regions[old_j]);
        if next {
            assert(regions[at].start + regions[at].size < regions[old_j].start);
        } else if old_j > at {
            assert(regions[at].start + regions[at].size < regions[old_j].start);
        }
    }
}

/// A region of which no byte is free is taken into the list.
proof fn lemma_inserted(regions: Seq<FreeRegion>, region: FreeRegion)
    requires
        regions_ok(regions),
        region_ok(region),
        forall|byte: int|
            region.start <= byte < region.start + region.size ==> !#[trigger] is_free(
                regions,
                byte,
            ),
    ensures
        regions_ok(inserted(regions, region)),
        free_bytes(inserted(regions, region)) == free_bytes(regions) + region.size,
        forall|byte: int| #[trigger]
            is_free(inserted(regions, region), byte) <==> is_free(regions, byte) || region.start
                <= byte < region.start + region.size,
{
    let at = regions_before(regions, region.start as int, regions.len());
    lemma_regions_before(regions, region.start as int, regions.len());
    assert forall|i: int| 0 <= i < at implies (#[trigger] regions[i]).start + regions[i].size
        <= region.start by {
        if regions[i].start + regions[i].size > region.start {
            assert(regions[i].start <= region.start as int);
            assert(is_free(regions, region.start as int));
        }
    }
    assert forall|i: int| at <= i < regions.len() implies region.start + region.size <= (
    #[trigger] regions[i]).start by {
        if region.start + region.size > regions[i].start {
            assert(region_ok(regions[i]));
            assert(regions[i].start <= regions[i].start as int);
            assert(is_free(regions, regions[i].start as int));
        }
    }
    lemma_placed(regions, at, region);
}

/// A power of two, as far as it matters here: it divides eight or eight divides it.
pub open spec fn alignment_ok(align: u64) -> bool {
    align == 1 || align == 2 || align == 4 || (align > 0 && align % 8 == 0)
}

proof fn lemma_rounded_up(value: int, alignment: int)
    requires
        alignment > 0,
        value >= 0,
    ensures
        value <= rounded_up(value, alignment) < value + alignment,
        rounded_up(value, alignment) % alignment == 0,
        alignment % 8 == 0 ==> rounded_up(value, alignment) % 8 == 0,
{
    let sum = value + alignment - 1;
    let rest = sum % alignment;
    let quotient = sum / alignment;
    vstd::arithmetic::div_mod::lemma_fundamental_div_mod(sum, alignment);
    assert(0 <= rest < alignment) by (nonlinear_arith)
        requires
            rest == sum % alignment,
            alignment > 0,
    ;
    assert(sum - rest == alignment * quotient);
    vstd::arithmetic::div_mod::lemma_mod_multiples_basic(quotient, alignment);
    assert(alignment * quotient == quotient * alignment) by (nonlinear_arith);
    if alignment % 8 == 0 {
        let eighth = alignment / 8;
        assert(quotient * alignment == (quotient * eighth) * 8) by (nonlinear_arith)
            requires
                alignment == eighth * 8,
        ;
    }
}

/// A block that fits lies in its region, is aligned, and leaves nothing too small beside
/// it.
proof fn lemma_fit(region: FreeRegion, requested: u64, alignment: u64)
    requires
        region_ok(region),
        requested >= 1,
        alignment > 0,
        alignment % 8 == 0,
    ensures
        fit(region, requested, alignment) matches Fit::Fits { user_start, block_end } ==> {
            let block_start = user_start - HEADER_SIZE;
            &&& user_start as int % alignment as int == 0
            &&& block_start % 8 == 0
            &&& block_end % 8 == 0
            &&& region.start <= block_start
            &&& user_start + requested <= block_end
            &&& block_end <= region.start + region.size
            &&& block_start == region.start || block_start - region.start >= MINIMUM_REGION
            &&& block_end == region.start + region.size || region.start + region.size - block_end
                >= MINIMUM_REGION
        },
{
    let base = region.start + HEADER_SIZE;
    let first = rounded_up(base, alignment as int);
    lemma_rounded_up(base, alignment as int);
    let user_start = if 0 < first - base < MINIMUM_REGION {
        first + alignment
    } else {
        first
    };
    assert((first + alignment) % alignment as int == 0) by (nonlinear_arith)
        requires
            first % alignment as int == 0,
            alignment > 0,
    ;
    let end = rounded_up(user_start + requested, 8);
    lemma_rounded_up(user_start + requested, 8);
    lemma_fit_parts(region, requested, alignment, first, user_start, end);
    assert(fit(region, requested, alignment) matches Fit::Fits { user_start: start, block_end }
        ==> start == user_start && block_end == (if region.start + region.size - end
        < MINIMUM_REGION {
        region.start + region.size
    } else {
        end
    }) && end <= region.start + region.size) by {
        reveal(fit);
    }
}

/// What a block leaves beside it.
proof fn lemma_fit_parts(
    region: FreeRegion,
    requested: u64,
    alignment: u64,
    first: int,
    user_start: int,
    end: int,
)
    requires
        region_ok(region),
        alignment > 0,
        alignment % 8 == 0,
        region.start + HEADER_SIZE <= first,
        first % 8 == 0,
        user_start == (if 0 < first - region.start - HEADER_SIZE < MINIMUM_REGION {
            first + alignment
        } else {
            first
        }),
        end % 8 == 0,
        user_start + requested <= end,
    ensures
        user_start % 8 == 0,
        region.start <= user_start - HEADER_SIZE,
        user_start - HEADER_SIZE == region.start || user_start - HEADER_SIZE - region.start
            >= MINIMUM_REGION,
        (region.start + region.size) % 8 == 0,
{
}

/// Taking a region out of the list.
proof fn lemma_removed(regions: Seq<FreeRegion>, at: int)
    requires
        regions_ok(regions),
        0 <= at < regions.len(),
    ensures
        regions_ok(regions.remove(at)),
        free_bytes(regions.remove(at)) == free_bytes(regions) - regions[at].size,
        forall|byte: int| #[trigger]
            is_free(regions.remove(at), byte) <==> is_free(regions, byte) && !(regions[at].start
                <= byte < regions[at].start + regions[at].size),
{
    lemma_free_bytes_remove(regions, at);
    let without = regions.remove(at);
    assert forall|byte: int| #[trigger] is_free(without, byte) <==> is_free(regions, byte) && !(
    regions[at].start <= byte < regions[at].start + regions[at].size) by {
        if is_free(without, byte) {
            let i = choose|i: int|
                0 <= i < without.len() && (#[trigger] without[i]).start <= byte
                    < without[i].start + without[i].size;
            let k = if i < at {
                i
            } else {
                i + 1
            };
            assert(without[i] == regions[k]);
            if k < at {
                assert(regions[k].start + regions[k].size < regions[at].start);
            } else {
                assert(regions[at].start + regions[at].size < regions[k].start);
            }
        }
        if is_free(regions, byte) && !(regions[at].start <= byte < regions[at].start
            + regions[at].size) {
            let i = choose|i: int|
                0 <= i < regions.len() && (#[trigger] regions[i]).start <= byte
                    < regions[i].start + regions[i].size;
            let k = if i < at {
                i
            } else {
                i - 1
            };
            assert(without[k] == regions[i]);
        }
    }
}

/// Cutting a block out of a region: its bytes and no others are free no more.
proof fn lemma_cut(regions: Seq<FreeRegion>, at: int, block_start: u64, block_end: u64)
    requires
        regions_ok(regions),
        0 <= at < regions.len(),
        block_start % 8 == 0,
        block_end % 8 == 0,
        regions[at].start <= block_start < block_end <= regions[at].start + regions[at].size,
        block_start == regions[at].start || block_start - regions[at].start >= MINIMUM_REGION,
        block_end == regions[at].start + regions[at].size || regions[at].start + regions[at].size
            - block_end >= MINIMUM_REGION,
    ensures
        regions_ok(cut(regions, at, block_start, block_end)),
        free_bytes(cut(regions, at, block_start, block_end)) == free_bytes(regions) - (block_end
            - block_start),
        forall|byte: int| #[trigger]
            is_free(cut(regions, at, block_start, block_end), byte) <==> is_free(regions, byte) && !(
            block_start <= byte < block_end),
{
    reveal(cut);
    let region = regions[at];
    assert(region_ok(region));
    let region_end = (region.start + region.size) as u64;
    let prefix = (block_start - region.start) as u64;
    let without = regions.remove(at);
    lemma_removed(regions, at);
    let first = FreeRegion { start: region.start, size: prefix };
    let before = if prefix >= MINIMUM_REGION {
        inserted(without, first)
    } else {
        without
    };
    if prefix >= MINIMUM_REGION {
        lemma_inserted(without, first);
    }
    let last = FreeRegion { start: block_end, size: (region_end - block_end) as u64 };
    if block_end < region_end {
        lemma_inserted(before, last);
    }
    let after = cut(regions, at, block_start, block_end);
    assert forall|byte: int| #[trigger] is_free(after, byte) <==> is_free(regions, byte) && !(
    block_start <= byte < block_end) by {
        assert(is_free(without, byte) <==> is_free(regions, byte) && !(region.start <= byte
            < region.start + region.size));
        assert(is_free(before, byte) <==> is_free(without, byte) || (prefix >= MINIMUM_REGION
            && region.start <= byte < block_start));
        assert(is_free(after, byte) <==> is_free(before, byte) || (block_end < region_end
            && block_end <= byte < region_end));
        if region.start <= byte < region.start + region.size {
            assert(regions[at].start <= byte);
        }
    }
}

pub proof fn lemma_first_fit(regions: Seq<FreeRegion>, requested: u64, alignment: u64, from: int)
    requires
        0 <= from <= regions.len(),
    ensures
        from <= first_fit(regions, requested, alignment, from) <= regions.len(),
        first_fit(regions, requested, alignment, from) < regions.len() ==> !(fit(
            regions[first_fit(regions, requested, alignment, from)],
            requested,
            alignment,
        ) is TooSmall),
    decreases regions.len() - from,
{
    if from < regions.len() && fit(regions[from], requested, alignment) is TooSmall {
        lemma_first_fit(regions, requested, alignment, from + 1);
    }
}

/// A block takes a byte at least.
proof fn lemma_block_count(blocks: Seq<Block>)
    requires
        forall|i: int| 0 <= i < blocks.len() ==> block_ok(#[trigger] blocks[i]),
    ensures
        blocks.len() <= taken_bytes(blocks),
    decreases blocks.len(),
{
    if blocks.len() > 0 {
        assert(block_ok(blocks[blocks.len() - 1]));
        lemma_block_count(blocks.drop_last());
    }
}

/// Asking for a block keeps the heap in order.
proof fn lemma_allocated(heap: HeapView, layout: Layout)
    requires
        heap.wf(),
        alignment_ok(layout.align),
    ensures
        allocated(heap, layout).0.wf(),
{
    let alignment = block_alignment(layout);
    let at = first_fit(heap.regions, layout.size, alignment, 0);
    lemma_first_fit(heap.regions, layout.size, alignment, 0);
    let (after, result) = allocated(heap, layout);
    if result is Some {
        let region = heap.regions[at];
        assert(region_ok(region));
        lemma_fit(region, layout.size, alignment);
        if let Fit::Fits { user_start, block_end } = fit(region, layout.size, alignment) {
            let block_start = (user_start - HEADER_SIZE) as u64;
            lemma_cut(heap.regions, at, block_start, block_end);
            lemma_free_bytes_positive(after.regions);
            lemma_block_count(heap.blocks);
            lemma_free_bytes_positive(heap.regions);
            let block = Block {
                user_start,
                block_start,
                block_size: (block_end - block_start) as u64,
            };
            assert(after.blocks.drop_last() =~= heap.blocks);
            assert forall|byte: int| block_start <= byte < block_end implies #[trigger] is_free(
                heap.regions,
                byte,
            ) by {
                assert(heap.regions[at].start <= byte);
            }
            assert forall|i: int, j: int| 0 <= i < j < after.blocks.len() implies (
            #[trigger] after.blocks[i]).block_start + after.blocks[i].block_size <= (
            #[trigger] after.blocks[j]).block_start || after.blocks[j].block_start
                + after.blocks[j].block_size <= after.blocks[i].block_start by {
                if j == heap.blocks.len() {
                    let other = heap.blocks[i];
                    assert(block_ok(other));
                    if !(other.block_start + other.block_size <= block_start || block_end
                        <= other.block_start) {
                        let byte = if other.block_start < block_start {
                            block_start as int
                        } else {
                            other.block_start as int
                        };
                        assert(takes(heap.blocks[i], byte));
                        assert(is_free(heap.regions, byte));
                    }
                }
            }
            assert forall|i: int, byte: int|
                0 <= i < after.blocks.len() && #[trigger] takes(after.blocks[i], byte) implies !is_free(
                after.regions,
                byte,
            ) by {
                if i < heap.blocks.len() {
                    assert(takes(heap.blocks[i], byte));
                }
            }
        }
    }
}

pub proof fn lemma_block_at(blocks: Seq<Block>, address: u64, from: int)
    requires
        0 <= from <= blocks.len(),
    ensures
        from <= block_at(blocks, address, from) <= blocks.len(),
        block_at(blocks, address, from) < blocks.len() ==> blocks[block_at(
            blocks,
            address,
            from,
        )].user_start == address,
    decreases blocks.len() - from,
{
    if from < blocks.len() && blocks[from].user_start != address {
        lemma_block_at(blocks, address, from + 1);
    }
}

/// Giving a block back keeps the heap in order.
proof fn lemma_deallocated(heap: HeapView, address: u64)
    requires
        heap.wf(),
    ensures
        deallocated(heap, address).0.wf(),
        deallocated(heap, address).1 matches Some(block) ==> {
            &&& block_ok(block)
            &&& forall|byte: int| #[trigger]
                is_free(deallocated(heap, address).0.regions, byte) <==> is_free(
                    heap.regions,
                    byte,
                ) || takes(block, byte)
        },
{
    let at = block_at(heap.blocks, address, 0);
    lemma_block_at(heap.blocks, address, 0);
    let (after, result) = deallocated(heap, address);
    if result is Some {
        let block = heap.blocks[at];
        assert(block_ok(block));
        let region = FreeRegion { start: block.block_start, size: block.block_size };
        assert forall|byte: int| region.start <= byte < region.start + region.size implies !#[trigger] is_free(
            heap.regions,
            byte,
        ) by {
            assert(takes(heap.blocks[at], byte));
        }
        lemma_inserted(heap.regions, region);
        lemma_taken_bytes_remove(heap.blocks, at);
        lemma_taken_bytes_bound(heap.blocks, at);
        assert forall|i: int| 0 <= i < after.blocks.len() implies #[trigger] after.blocks[i]
            == heap.blocks[if i < at {
            i
        } else {
            i + 1
        }] by {}
        assert forall|i: int, byte: int|
            0 <= i < after.blocks.len() && #[trigger] takes(after.blocks[i], byte) implies !is_free(
            after.regions,
            byte,
        ) by {
            let k = if i < at {
                i
            } else {
                i + 1
            };
            assert(after.blocks[i] == heap.blocks[k]);
            assert(takes(heap.blocks[k], byte));
            if k < at {
                assert(heap.blocks[k].block_start + heap.blocks[k].block_size
                    <= heap.blocks[at].block_start || heap.blocks[at].block_start
                    + heap.blocks[at].block_size <= heap.blocks[k].block_start);
            } else {
                assert(heap.blocks[at].block_start + heap.blocks[at].block_size
                    <= heap.blocks[k].block_start || heap.blocks[k].block_start
                    + heap.blocks[k].block_size <= heap.blocks[at].block_start);
            }
        }
    }
}

/// A block that was given out lies at a multiple of its alignment, has room for what was
/// asked for, and shares no byte with any other block.
pub proof fn law_blocks_are_apart(heap: HeapView, layout: Layout, other: int, byte: int)
    requires
        heap.wf(),
        alignment_ok(layout.align),
        allocated(heap, layout).1 is Some,
    ensures
        ({
            let user_start = allocated(heap, layout).1.unwrap();
            let block = allocated(heap, layout).0.blocks.last();
            &&& user_start as int % block_alignment(layout) as int == 0
            &&& block.user_start == user_start
            &&& user_start + layout.size <= block.block_start + block.block_size
            &&& HEAP_START < user_start && user_start + layout.size <= HEAP_END
            &&& 0 <= other < heap.blocks.len() ==> !(takes(heap.blocks[other], byte) && takes(
                block,
                byte,
            ))
        }),
{
    let alignment = block_alignment(layout);
    let at = first_fit(heap.regions, layout.size, alignment, 0);
    lemma_first_fit(heap.regions, layout.size, alignment, 0);
    assert(region_ok(heap.regions[at]));
    lemma_fit(heap.regions[at], layout.size, alignment);
    lemma_allocated(heap, layout);
    let after = allocated(heap, layout).0;
    assert(block_ok(after.blocks[after.blocks.len() - 1]));
    if 0 <= other < heap.blocks.len() {
        assert(after.blocks[other] == heap.blocks[other]);
        assert(block_ok(after.blocks[other]));
    }
}

/// What is given out and given back leaves the heap as it was: the same bytes are free and
/// the same blocks are out.
pub proof fn law_deallocation_undoes_allocation(heap: HeapView, layout: Layout, byte: int)
    requires
        heap.wf(),
        alignment_ok(layout.align),
        allocated(heap, layout).1 is Some,
    ensures
        ({
            let (middle, user_start) = allocated(heap, layout);
            let (after, block) = deallocated(middle, user_start.unwrap());
            &&& block is Some
            &&& after.used == heap.used
            &&& after.allocations == heap.allocations
            &&& after.blocks == heap.blocks
            &&& is_free(after.regions, byte) == is_free(heap.regions, byte)
        }),
{
    let (middle, user_start) = allocated(heap, layout);
    lemma_allocated(heap, layout);
    let address = user_start.unwrap();
    let last = heap.blocks.len() as int;
    lemma_block_at(middle.blocks, address, 0);
    assert forall|i: int| 0 <= i < last implies (#[trigger] middle.blocks[i]).user_start
        != address by {
        assert(middle.blocks[last].user_start == address);
        assert(block_ok(middle.blocks[i]) && block_ok(middle.blocks[last]));
    }
    lemma_block_found(middle.blocks, address, last, 0);
    lemma_deallocated(middle, address);
    let (after, block) = deallocated(middle, address);
    assert(after.blocks =~= heap.blocks);
    let alignment = block_alignment(layout);
    let at = first_fit(heap.regions, layout.size, alignment, 0);
    lemma_first_fit(heap.regions, layout.size, alignment, 0);
    assert(region_ok(heap.regions[at]));
    lemma_fit(heap.regions[at], layout.size, alignment);
    let given = middle.blocks[last];
    lemma_cut(
        heap.regions,
        at,
        given.block_start,
        (given.block_start + given.block_size) as u64,
    );
    assert(is_free(after.regions, byte) <==> is_free(middle.regions, byte) || takes(
        given,
        byte,
    ));
    assert(is_free(middle.regions, byte) <==> is_free(heap.regions, byte) && !(given.block_start
        <= byte < given.block_start + given.block_size));
    if takes(given, byte) {
        assert(heap.regions[at].start <= byte);
        assert(is_free(heap.regions, byte));
    }
}

proof fn lemma_block_found(blocks: Seq<Block>, address: u64, at: int, from: int)
    requires
        0 <= from <= at < blocks.len(),
        blocks[at].user_start == address,
        forall|i: int| 0 <= i < at ==> (#[trigger] blocks[i]).user_start != address,
    ensures
        block_at(blocks, address, from) == at,
    decreases at - from,
{
    if from < at {
        assert(blocks[from].user_start != address);
        lemma_block_found(blocks, address, at, from + 1);
    }
}

/// A heap.
pub struct KernelHeap {
    regions: Vec<FreeRegion>,
    blocks: Vec<Block>,
    size: u64,
    used: u64,
    peak: u64,
    allocations: u64,
    initialized: bool,
}

impl View for KernelHeap {
    type V = HeapView;

    closed spec fn view(&self) -> HeapView {
        HeapView {
            regions: self.regions@,
            blocks: self.blocks@,
            size: self.size,
            used: self.used,
            peak: self.peak,
            allocations: self.allocations,
            initialized: self.initialized,
        }
    }
}

/// A number rounded up to a multiple, if there is one.
fn align_up(value: u64, alignment: u64) -> (aligned: Option<u64>)
    requires
        alignment > 0,
    ensures
        aligned is Some <==> value + alignment - 1 <= u64::MAX,
        aligned is Some ==> aligned.unwrap() == rounded_up(value as int, alignment as int),
{
    match value.checked_add(alignment - 1) {
        None => None,
        Some(sum) => {
            assert(sum as int % alignment as int <= sum) by (nonlinear_arith)
                requires
                    alignment > 0,
                    sum >= 0,
            ;
            Some(sum - sum % alignment)
        },
    }
}

/// How a request fits in a region.
fn try_fit(region: FreeRegion, requested: u64, alignment: u64) -> (result: Fit)
    requires
        region_ok(region),
        alignment > 0,
    ensures
        result == fit(region, requested, alignment),
{
    reveal(fit);
    let region_end: u64 = match region.start.checked_add(region.size) {
        None => {
            return Fit::Overflow;
        },
        Some(end) => end,
    };
    let base: u64 = match region.start.checked_add(HEADER_SIZE) {
        None => {
            return Fit::Overflow;
        },
        Some(base) => base,
    };
    let mut user_start: u64 = match align_up(base, alignment) {
        None => {
            return Fit::Overflow;
        },
        Some(start) => start,
    };
    proof {
        lemma_rounded_up(base as int, alignment as int);
    }
    let prefix: u64 = user_start - base;
    if prefix != 0 && prefix < MINIMUM_REGION {
        user_start =
        match user_start.checked_add(alignment) {
            None => {
                return Fit::Overflow;
            },
            Some(start) => start,
        };
    }
    let raw_end: u64 = match user_start.checked_add(requested) {
        None => {
            return Fit::Overflow;
        },
        Some(end) => end,
    };
    let end: u64 = match align_up(raw_end, REGION_ALIGNMENT) {
        None => {
            return Fit::Overflow;
        },
        Some(end) => end,
    };
    if end > region_end {
        return Fit::TooSmall;
    }
    let block_end: u64 = if region_end - end < MINIMUM_REGION {
        region_end
    } else {
        end
    };
    Fit::Fits { user_start, block_end }
}

impl KernelHeap {
    /// The heap keeps its rules.
    pub open spec fn wf(&self) -> bool {
        self@.wf()
    }

    pub fn new() -> (heap: Self)
        ensures
            heap@ == HeapView::empty(),
            heap.wf(),
    {
        let heap = KernelHeap {
            regions: Vec::new(),
            blocks: Vec::new(),
            size: 0,
            used: 0,
            peak: 0,
            allocations: 0,
            initialized: false,
        };
        assert(heap@ =~= HeapView::empty());
        heap
    }

    /// Gives the heap its memory.
    pub fn initialize(&mut self) -> (result: Result<(), HeapError>)
        requires
            old(self).wf(),
        ensures
            final(self).wf(),
            (final(self)@, result) == started(old(self)@, HEAP_START, HEAP_SIZE),
    {
        if self.initialized {
            return Err(HeapError::AlreadyInitialized);
        }
        self.size = HEAP_SIZE;
        self.initialized = true;
        proof {
            lemma_inserted(
                old(self)@.regions,
                FreeRegion { start: HEAP_START, size: HEAP_SIZE },
            );
        }
        self.insert_region(HEAP_START, HEAP_SIZE);
        Ok(())
    }

    /// Takes a region into the list of free regions.
    fn insert_region(&mut self, start: u64, size: u64)
        requires
            regions_ok(old(self)@.regions),
        ensures
            final(self)@ == (HeapView {
                regions: inserted(old(self)@.regions, FreeRegion { start, size }),
                ..old(self)@
            }),
    {
        if size < MINIMUM_REGION || start % REGION_ALIGNMENT != 0 {
            return;
        }
        let end: u64 = match start.checked_add(size) {
            None => {
                return;
            },
            Some(end) => end,
        };
        if start < HEAP_START || end > HEAP_END {
            return;
        }
        let mut at: usize = self.regions.len();
        while at > 0 && self.regions[at - 1].start >= start
            invariant
                at <= self.regions@.len(),
                *self == *old(self),
                regions_before(self@.regions, start as int, self@.regions.len())
                    == regions_before(self@.regions, start as int, at as nat),
            decreases at,
        {
            at = at - 1;
        }
        if at > 0 {
            let previous = self.regions[at - 1];
            assert(region_ok(self@.regions[at - 1]));
            if previous.start + previous.size > start {
                return;
            }
        }
        if at < self.regions.len() && end > self.regions[at].start {
            return;
        }
        proof {
            reveal(placed);
        }
        self.regions.insert(at, FreeRegion { start, size });
        if at < self.regions.len() - 1 {
            let next = self.regions[at + 1];
            assert(next == old(self)@.regions[at as int]);
            assert(region_ok(old(self)@.regions[at as int]));
            if start + size == next.start {
                self.regions.set(at, FreeRegion { start, size: size + next.size });
                self.regions.remove(at + 1);
            }
        }
        if at > 0 {
            let previous = self.regions[at - 1];
            assert(previous == old(self)@.regions[at - 1]);
            assert(region_ok(old(self)@.regions[at - 1]));
            let current = self.regions[at];
            if previous.start + previous.size == current.start {
                self.regions.set(
                    at - 1,
                    FreeRegion { start: previous.start, size: previous.size + current.size },
                );
                self.regions.remove(at);
            }
        }
        assert(self@.regions =~= inserted(old(self)@.regions, FreeRegion { start, size }));
    }

    /// Hands out a block.
    pub fn allocate(&mut self, layout: Layout) -> (start: Option<u64>)
        requires
            old(self).wf(),
            alignment_ok(layout.align),
        ensures
            final(self).wf(),
            (final(self)@, start) == allocated(old(self)@, layout),
    {
        if !self.initialized || layout.size == 0 {
            return None;
        }
        let alignment: u64 = if layout.align < REGION_ALIGNMENT {
            REGION_ALIGNMENT
        } else {
            layout.align
        };
        let mut at: usize = 0;
        while at < self.regions.len()
            invariant
                at <= self.regions@.len(),
                *self == *old(self),
                self.wf(),
                self.initialized,
                layout.size >= 1,
                alignment_ok(layout.align),
                alignment == block_alignment(layout),
                alignment > 0,
                first_fit(self@.regions, layout.size, alignment, 0) == first_fit(
                    self@.regions,
                    layout.size,
                    alignment,
                    at as int,
                ),
            decreases self.regions@.len() - at,
        {
            let region = self.regions[at];
            assert(region_ok(self@.regions[at as int]));
            match try_fit(region, layout.size, alignment) {
                Fit::Overflow => {
                    return None;
                },
                Fit::TooSmall => {},
                Fit::Fits { user_start, block_end } => {
                    proof {
                        lemma_fit(region, layout.size, alignment);
                        lemma_allocated(self@, layout);
                        lemma_block_count(self@.blocks);
                        lemma_free_bytes_positive(self@.regions);
                        lemma_cut(
                            self@.regions,
                            at as int,
                            (user_start - HEADER_SIZE) as u64,
                            block_end,
                        );
                        lemma_free_bytes_positive(
                            cut(
                                self@.regions,
                                at as int,
                                (user_start - HEADER_SIZE) as u64,
                                block_end,
                            ),
                        );
                    }
                    let block_start: u64 = user_start - HEADER_SIZE;
                    self.cut_block(at, block_start, block_end);
                    let block_size: u64 = block_end - block_start;
                    self.blocks.push(Block { user_start, block_start, block_size });
                    self.used = self.used + block_size;
                    if self.used > self.peak {
                        self.peak = self.used;
                    }
                    self.allocations = self.allocations + 1;
                    assert(self@ =~= allocated(old(self)@, layout).0);
                    return Some(user_start);
                },
            }
            at += 1;
        }
        None
    }

    /// Cuts a block out of a region.
    fn cut_block(&mut self, at: usize, block_start: u64, block_end: u64)
        requires
            regions_ok(old(self)@.regions),
            at < old(self)@.regions.len(),
            old(self)@.regions[at as int].start <= block_start,
            block_end <= old(self)@.regions[at as int].start + old(
                self,
            )@.regions[at as int].size,
            block_start % 8 == 0,
            block_start == old(self)@.regions[at as int].start || block_start - old(
                self,
            )@.regions[at as int].start >= MINIMUM_REGION,
            block_start <= block_end,
        ensures
            final(self)@ == (HeapView {
                regions: cut(old(self)@.regions, at as int, block_start, block_end),
                ..old(self)@
            }),
    {
        reveal(cut);
        assert(region_ok(self@.regions[at as int]));
        let region = self.regions[at];
        let region_end: u64 = region.start + region.size;
        let prefix: u64 = block_start - region.start;
        proof {
            lemma_removed(self@.regions, at as int);
        }
        self.regions.remove(at);
        assert(self@ =~= (HeapView {
            regions: old(self)@.regions.remove(at as int),
            ..old(self)@
        }));
        if prefix >= MINIMUM_REGION {
            proof {
                let first = FreeRegion { start: region.start, size: prefix };
                assert forall|byte: int|
                    first.start <= byte < first.start + first.size implies !#[trigger] is_free(
                    self@.regions,
                    byte,
                ) by {}
                lemma_inserted(self@.regions, first);
            }
            self.insert_region(region.start, prefix);
        }
        if block_end < region_end {
            self.insert_region(block_end, region_end - block_end);
        }
    }

    /// Takes a block back, and says what part of the heap is to be cleared.
    pub fn deallocate(&mut self, address: u64) -> (block: Option<Block>)
        requires
            old(self).wf(),
        ensures
            final(self).wf(),
            (final(self)@, block) == deallocated(old(self)@, address),
    {
        if !self.initialized {
            return None;
        }
        proof {
            lemma_deallocated(self@, address);
            lemma_block_at(self@.blocks, address, 0);
        }
        let mut at: usize = 0;
        while at < self.blocks.len()
            invariant
                at <= self.blocks@.len(),
                *self == *old(self),
                self.wf(),
                self.initialized,
                deallocated(self@, address).0.wf(),
                block_at(self@.blocks, address, 0) == block_at(self@.blocks, address, at as int),
            decreases self.blocks@.len() - at,
        {
            let block = self.blocks[at];
            if block.user_start == address {
                proof {
                    lemma_taken_bytes_bound(self@.blocks, at as int);
                }
                self.blocks.remove(at);
                self.used = self.used - block.block_size;
                self.allocations = self.allocations - 1;
                self.insert_region(block.block_start, block.block_size);
                assert(self@ =~= deallocated(old(self)@, address).0);
                return Some(block);
            }
            at += 1;
        }
        None
    }
}

/// The allocator of the kernel: its heap, and how often it had nothing to give.
pub struct GlobalKernelAllocator {
    heap: KernelHeap,
    oom_events: u64,
}

impl GlobalKernelAllocator {
    pub closed spec fn heap(&self) -> HeapView {
        self.heap@
    }

    pub closed spec fn spec_oom_events(&self) -> u64 {
        self.oom_events
    }

    pub fn new() -> (allocator: Self)
        ensures
            allocator.heap() == HeapView::empty(),
            allocator.heap().wf(),
            allocator.spec_oom_events() == 0,
    {
        GlobalKernelAllocator { heap: KernelHeap::new(), oom_events: 0 }
    }

    /// Hands out a block; a request that cannot be met is counted.
    pub fn allocate(&mut self, layout: Layout) -> (start: Option<u64>)
        requires
            old(self).heap().wf(),
            alignment_ok(layout.align),
        ensures
            final(self).heap().wf(),
            (final(self).heap(), start) == allocated(old(self).heap(), layout),
            final(self).spec_oom_events() == (if start is None {
                counted(old(self).spec_oom_events())
            } else {
                old(self).spec_oom_events()
            }),
    {
        let start = self.heap.allocate(layout);
        if start.is_none() {
            self.oom_events = self.oom_events.wrapping_add(1);
        }
        start
    }

    pub fn release(&mut self, address: u64) -> (block: Option<Block>)
        requires
            old(self).heap().wf(),
        ensures
            final(self).heap().wf(),
            (final(self).heap(), block) == deallocated(old(self).heap(), address),
            final(self).spec_oom_events() == old(self).spec_oom_events(),
    {
        self.heap.deallocate(address)
    }
}

/// A count of events, which starts again when numbers run out.
pub open spec fn counted(events: u64) -> u64 {
    if events == u64::MAX {
        0
    } else {
        (events + 1) as u64
    }
}

/// The figures of a heap.
pub open spec fn heap_stats(heap: HeapView, oom_events: u64, self_test: bool) -> HeapStats {
    HeapStats {
        size: heap.size,
        used: heap.used,
        peak: heap.peak,
        allocations: heap.allocations,
        oom_events,
        self_test,
    }
}

pub fn try_allocate(allocator: &mut GlobalKernelAllocator, layout: Layout) -> (start: Result<
    u64,
    HeapError,
>)
    requires
        old(allocator).heap().wf(),
        alignment_ok(layout.align),
    ensures
        final(allocator).heap().wf(),
        final(allocator).heap() == allocated(old(allocator).heap(), layout).0,
        start == (match allocated(old(allocator).heap(), layout).1 {
            Some(start) => Ok::<u64, HeapError>(start),
            None => Err(HeapError::OutOfMemory),
        }),
        final(allocator).spec_oom_events() == (if start is Err {
            counted(old(allocator).spec_oom_events())
        } else {
            old(allocator).spec_oom_events()
        }),
{
    match allocator.allocate(layout) {
        Some(start) => Ok(start),
        None => Err(HeapError::OutOfMemory),
    }
}

/// Takes a block back, and says what part of the heap is to be cleared.
pub fn deallocate(allocator: &mut GlobalKernelAllocator, address: u64) -> (block: Option<Block>)
    requires
        old(allocator).heap().wf(),
    ensures
        final(allocator).heap().wf(),
        (final(allocator).heap(), block) == deallocated(old(allocator).heap(), address),
        final(allocator).spec_oom_events() == old(allocator).spec_oom_events(),
{
    allocator.release(address)
}

pub fn stats(allocator: &GlobalKernelAllocator) -> (stats: HeapStats)
    ensures
        stats == heap_stats(allocator.heap(), allocator.spec_oom_events(), false),
{
    stats_with_test(allocator, false)
}

fn stats_with_test(allocator: &GlobalKernelAllocator, self_test: bool) -> (stats: HeapStats)
    ensures
        stats == heap_stats(allocator.heap(), allocator.spec_oom_events(), self_test),
{
    HeapStats {
        size: allocator.heap.size,
        used: allocator.heap.used,
        peak: allocator.heap.peak,
        allocations: allocator.heap.allocations,
        oom_events: allocator.oom_events,
        self_test,
    }
}

/// A request for more than the heap has is never met.
pub proof fn law_too_much_is_refused(heap: HeapView, layout: Layout)
    requires
        heap.wf(),
        alignment_ok(layout.align),
        layout.size > HEAP_SIZE,
    ensures
        allocated(heap, layout) == (heap, None::<u64>),
{
    let alignment = block_alignment(layout);
    let at = first_fit(heap.regions, layout.size, alignment, 0);
    lemma_first_fit(heap.regions, layout.size, alignment, 0);
    if at < heap.regions.len() {
        assert(region_ok(heap.regions[at]));
        lemma_fit(heap.regions[at], layout.size, alignment);
    }
}

/// The blocks that the heap is tried with.
pub open spec fn first_trial() -> Layout {
    Layout { size: 73, align: 64 }
}

pub open spec fn second_trial() -> Layout {
    Layout { size: 8192, align: 4096 }
}

/// Trying the heap with two blocks: the heap after it, how many requests were not met,
/// and whether both blocks were to be had.
pub open spec fn tried(heap: HeapView) -> (HeapView, bool) {
    match allocated(heap, first_trial()) {
        (after, None) => (after, false),
        (one, Some(first)) => match allocated(one, second_trial()) {
            (after, None) => (deallocated(after, first).0, false),
            (two, Some(second)) => (
                deallocated(deallocated(two, second).0, first).0,
                true,
            ),
        },
    }
}

/// What is given back in the opposite order leaves as much in use as before.
proof fn lemma_tried(heap: HeapView)
    requires
        heap.wf(),
        tried(heap).1,
    ensures
        tried(heap).0.used == heap.used,
        tried(heap).0.allocations == heap.allocations,
{
    let (one, first) = allocated(heap, first_trial());
    lemma_allocated(heap, first_trial());
    law_deallocation_undoes_allocation(heap, first_trial(), 0);
    law_deallocation_undoes_allocation(one, second_trial(), 0);
    let (two, second) = allocated(one, second_trial());
    let three = deallocated(two, second.unwrap()).0;
    assert(three.blocks == one.blocks);
    lemma_block_at(one.blocks, first.unwrap(), 0);
}

fn self_test(allocator: &mut GlobalKernelAllocator) -> (passed: bool)
    requires
        old(allocator).heap().wf(),
    ensures
        final(allocator).heap().wf(),
        (final(allocator).heap(), passed) == tried(old(allocator).heap()),
        final(allocator).spec_oom_events() == counted(old(allocator).spec_oom_events()),
{
    let before = stats(allocator);
    let first = match try_allocate(allocator, Layout { size: 73, align: 64 }) {
        Err(_) => {
            return false;
        },
        Ok(start) => start,
    };
    let second = match try_allocate(allocator, Layout { size: 8192, align: 4096 }) {
        Err(_) => {
            let _ = deallocate(allocator, first);
            return false;
        },
        Ok(start) => start,
    };
    let _ = deallocate(allocator, second);
    let _ = deallocate(allocator, first);
    proof {
        lemma_tried(old(allocator).heap());
        law_too_much_is_refused(
            allocator.heap(),
            Layout { size: (HEAP_SIZE * 2) as u64, align: 8 },
        );
    }
    let after = stats(allocator);
    let refused = try_allocate(allocator, Layout { size: HEAP_SIZE * 2, align: 8 }).is_err();
    let last = stats(allocator);
    refused && after.used == before.used && after.allocations == before.allocations && last.used
        == before.used && last.allocations == before.allocations
}

/// The flags of the heap.
pub open spec fn heap_flags() -> MapFlags {
    MapFlags(ENTRY_PRESENT | ENTRY_WRITABLE | ENTRY_GLOBAL | ENTRY_NO_EXECUTE)
}

/// Mapping the pages of the heap from number `done` on; what was mapped is given back if
/// not all of it can be.
pub open spec fn heap_mapped(memory: MemoryView, root: u64, done: int) -> (
    MemoryView,
    Result<(), HeapError>,
)
    decreases 1024 - done,
{
    if done >= 1024 {
        (memory, Ok(()))
    } else {
        match memory.allocated() {
            (after, Err(_)) => (
                protection::unwound(after, root, HEAP_START, done),
                Err(HeapError::OutOfMemory),
            ),
            (after, Ok(frame)) => match paging::mapped(
                after,
                root,
                (HEAP_START + done * 4096) as u64,
                frame.spec_u64(),
                heap_flags(),
            ) {
                (failed, Err(_)) => (
                    protection::unwound(
                        failed.deallocated(frame.spec_u64()).0,
                        root,
                        HEAP_START,
                        done,
                    ),
                    Err(HeapError::MapFailed),
                ),
                (last, Ok(_)) => heap_mapped(last, root, done + 1),
            },
        }
    }
}

/// Starting the heap of the kernel: the memory, the heap and the figures after it.
pub open spec fn heap_started(memory: MemoryView, heap: HeapView, oom_events: u64) -> (
    MemoryView,
    HeapView,
    Result<HeapStats, HeapError>,
) {
    match heap_mapped(memory, paging::target_of(memory.root), 0) {
        (after, Err(error)) => (after, heap, Err(error)),
        (after, Ok(_)) => match started(heap, HEAP_START, HEAP_SIZE) {
            (same, Err(error)) => (after, same, Err(error)),
            (fresh, Ok(_)) => {
                let (last, passed) = tried(fresh);
                (after, last, Ok(heap_stats(last, counted(oom_events), passed)))
            },
        },
    }
}

pub fn initialize(memory: &mut PageMemory, allocator: &mut GlobalKernelAllocator) -> (result: Result<
    HeapStats,
    HeapError,
>)
    requires
        old(memory).wf(),
        old(allocator).heap().wf(),
    ensures
        final(memory).wf(),
        final(allocator).heap().wf(),
        (final(memory)@, final(allocator).heap(), result) == heap_started(
            old(memory)@,
            old(allocator).heap(),
            old(allocator).spec_oom_events(),
        ),
        final(allocator).spec_oom_events() == (if result is Ok {
            counted(old(allocator).spec_oom_events())
        } else {
            old(allocator).spec_oom_events()
        }),
{
    let mapper = match ActivePageTable::current(memory) {
        Err(_) => {
            return Err(HeapError::MapFailed);
        },
        Ok(mapper) => mapper,
    };
    let flags = MapFlags::present().bitor(MapFlags::writable()).bitor(MapFlags::global()).bitor(
        MapFlags::no_execute(),
    );
    let ghost root = mapper.root.spec_u64();
    let mut done: usize = 0;
    while done < 1024
        invariant
            done <= 1024,
            memory.wf(),
            *allocator == *old(allocator),
            old(allocator).heap().wf(),
            root == mapper.root.spec_u64(),
            root == paging::target_of(old(memory)@.root),
            flags == heap_flags(),
            heap_mapped(memory@, root, done as int) == heap_mapped(old(memory)@, root, 0),
        decreases 1024 - done,
    {
        let page = match VirtualAddress::new(HEAP_START + done as u64 * PAGE_SIZE) {
            None => {
                return Err(HeapError::MapFailed);
            },
            Some(page) => page,
        };
        let frame = match memory.allocate() {
            Err(_) => {
                protection::unwind(memory, &mapper, HEAP_START, done);
                return Err(HeapError::OutOfMemory);
            },
            Ok(frame) => frame,
        };
        if mapper.map_4k(memory, page, frame, flags).is_err() {
            let _ = memory.deallocate(frame);
            protection::unwind(memory, &mapper, HEAP_START, done);
            return Err(HeapError::MapFailed);
        }
        done += 1;
    }
    match allocator.heap.initialize() {
        Err(error) => {
            return Err(error);
        },
        Ok(_) => {},
    }
    let passed = self_test(allocator);
    Ok(stats_with_test(allocator, passed))
}

} // verus!

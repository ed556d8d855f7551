//! The protection of the kernel: no page is both written and run, and stacks have guards.
use crate::mm::address;
use crate::mm::address::{
    PhysicalAddress, VirtualAddress, KERNEL_BASE, PAGE_SIZE, PHYSICAL_MEMORY_OFFSET,
};
use crate::mm::frame;
use crate::mm::paging;
use crate::mm::paging::{
    ActivePageTable, AddressSpace, MapFlags, UserStack, EARLY_STACK_END, EARLY_STACK_GUARD,
    EARLY_STACK_START, ENTRY_CACHE_DISABLE, ENTRY_GLOBAL, ENTRY_NO_EXECUTE, ENTRY_PRESENT,
    ENTRY_USER, ENTRY_WRITABLE, ENTRY_WRITE_THROUGH,
};
use crate::mm::physical::{MemoryView, PageMemory};
use crate::text;
use vstd::prelude::*;

verus! {

/// What the protection of the kernel has achieved.
#[derive(Clone, Copy, Debug, PartialEq, Eq, Structural)]
pub struct PagingSecurity {
    pub write_xor_execute: bool,
    pub high_half: bool,
    pub user_isolation: bool,
    pub user_copy: bool,
    pub user_guard: bool,
    pub stack_guard: bool,
}

impl PagingSecurity {
    pub open spec fn spec_failed() -> Self {
        PagingSecurity {
            write_xor_execute: false,
            high_half: false,
            user_isolation: false,
            user_copy: false,
            user_guard: false,
            stack_guard: false,
        }
    }

    pub fn failed() -> (security: Self)
        ensures
            security == Self::spec_failed(),
    {
        PagingSecurity {
            write_xor_execute: false,
            high_half: false,
            user_isolation: false,
            user_copy: false,
            user_guard: false,
            stack_guard: false,
        }
    }
}

/// Where the parts of the kernel lie, in its own addresses and in physical ones.
#[derive(Clone, Copy, Debug, PartialEq, Eq, Structural)]
pub struct KernelRanges {
    pub kernel_start: u64,
    pub text_start: u64,
    pub text_end: u64,
    pub data_start: u64,
    pub kernel_end: u64,
    pub kernel_phys_start: u64,
    pub text_phys_start: u64,
    pub text_phys_end: u64,
    pub data_phys_start: u64,
    pub kernel_phys_end: u64,
}

/// The last address that the direct mapping can show.
pub const DIRECT_MAP_LAST: u64 = 0x7fff_ffff_ffff;

impl KernelRanges {
    /// The physical addresses lie in the direct mapping.
    pub open spec fn in_direct_map(self) -> bool {
        &&& self.kernel_phys_start <= DIRECT_MAP_LAST
        &&& self.text_phys_start <= DIRECT_MAP_LAST
        &&& self.text_phys_end <= DIRECT_MAP_LAST
        &&& self.data_phys_start <= DIRECT_MAP_LAST
        &&& self.kernel_phys_end <= DIRECT_MAP_LAST
    }
}

/// The flags of code, of data that does not change, and of data that does.
pub open spec fn executable_flags() -> MapFlags {
    MapFlags(ENTRY_PRESENT | ENTRY_GLOBAL)
}

pub open spec fn readonly_flags() -> MapFlags {
    MapFlags(ENTRY_PRESENT | ENTRY_GLOBAL | ENTRY_NO_EXECUTE)
}

pub open spec fn writable_flags() -> MapFlags {
    MapFlags((ENTRY_PRESENT | ENTRY_GLOBAL | ENTRY_NO_EXECUTE) | ENTRY_WRITABLE)
}

/// Setting the flags of the pages from `at` to `end`, and whether all were set.
pub open spec fn pages_protected(
    memory: MemoryView,
    root: u64,
    at: int,
    end: int,
    flags: MapFlags,
) -> (MemoryView, bool)
    decreases end - at + 4096,
{
    if at >= end {
        (memory, true)
    } else if !address::is_canonical(at as u64) {
        (memory, false)
    } else {
        match paging::flags_set(memory, root, at as u64, flags) {
            (after, Err(_)) => (after, false),
            (after, Ok(_)) => pages_protected(after, root, at + 4096, end, flags),
        }
    }
}

pub open spec fn range_protected(
    memory: MemoryView,
    root: u64,
    start: u64,
    end: u64,
    flags: MapFlags,
) -> (MemoryView, bool) {
    pages_protected(
        memory,
        root,
        paging::aligned_down(start, 4096),
        paging::aligned_up(end, 4096),
        flags,
    )
}

/// Splitting the large pages from `at` to `end`, and whether all were split.
pub open spec fn pages_split(memory: MemoryView, root: u64, at: int, end: int) -> (MemoryView, bool)
    decreases end - at + 0x20_0000,
{
    if at >= end {
        (memory, true)
    } else if !address::is_canonical(at as u64) {
        (memory, false)
    } else {
        match paging::split(memory, root, at as u64) {
            (after, Err(_)) => (after, false),
            (after, Ok(_)) => pages_split(after, root, at + 0x20_0000, end),
        }
    }
}

/// Setting the flags of a range that large pages may cover.
pub open spec fn split_and_protected(
    memory: MemoryView,
    root: u64,
    start: u64,
    end: u64,
    flags: MapFlags,
) -> (MemoryView, bool) {
    let (after, split) = pages_split(
        memory,
        root,
        paging::aligned_down(start, 0x20_0000),
        paging::aligned_up(end, 0x20_0000),
    );
    if !split {
        (after, false)
    } else {
        range_protected(after, root, start, end, flags)
    }
}

/// Setting the flags of a physical range in the identity mapping and in the direct
/// mapping.
pub open spec fn alias_protected(
    memory: MemoryView,
    root: u64,
    start: u64,
    end: u64,
    flags: MapFlags,
) -> (MemoryView, bool) {
    let (after, low) = split_and_protected(memory, root, start, end, flags);
    if !low {
        (after, false)
    } else {
        split_and_protected(
            after,
            root,
            (PHYSICAL_MEMORY_OFFSET + start) as u64,
            (PHYSICAL_MEMORY_OFFSET + end) as u64,
            flags,
        )
    }
}

/// Taking from the other mappings of the kernel what they must not allow.
pub open spec fn aliases_protected(memory: MemoryView, root: u64, ranges: KernelRanges) -> (
    MemoryView,
    bool,
) {
    let (first, ok1) = alias_protected(
        memory,
        root,
        ranges.kernel_phys_start,
        ranges.text_phys_start,
        readonly_flags(),
    );
    let (second, ok2) = alias_protected(
        first,
        root,
        ranges.text_phys_start,
        ranges.text_phys_end,
        readonly_flags(),
    );
    let (third, ok3) = alias_protected(
        second,
        root,
        ranges.text_phys_end,
        ranges.data_phys_start,
        readonly_flags(),
    );
    if !ok1 {
        (first, false)
    } else if !ok2 {
        (second, false)
    } else if !ok3 {
        (third, false)
    } else {
        alias_protected(
            third,
            root,
            ranges.data_phys_start,
            ranges.kernel_phys_end,
            writable_flags(),
        )
    }
}

/// Setting up the early stack above a guard page.
pub open spec fn stack_guarded(memory: MemoryView, root: u64, flags: MapFlags) -> (
    MemoryView,
    bool,
) {
    match paging::split(memory, root, EARLY_STACK_GUARD) {
        (after, Err(_)) => (after, false),
        (after, Ok(_)) => match range_protected(
            after,
            root,
            EARLY_STACK_START,
            EARLY_STACK_END,
            flags,
        ) {
            (last, false) => (last, false),
            (last, true) => {
                let (guarded, result) = paging::unmapped(last, root, EARLY_STACK_GUARD);
                (guarded, result is Ok)
            },
        },
    }
}

/// Setting the flags of the kernel's own mapping.
pub open spec fn kernel_protected(memory: MemoryView, root: u64, ranges: KernelRanges) -> (
    MemoryView,
    bool,
) {
    let start = paging::aligned_down(ranges.kernel_start, 0x20_0000);
    let end = paging::aligned_up(ranges.kernel_end, 0x20_0000);
    let (split, ok0) = pages_split(memory, root, start, end);
    let (first, ok1) = range_protected(
        split,
        root,
        start as u64,
        ranges.text_start,
        readonly_flags(),
    );
    let (second, ok2) = range_protected(
        first,
        root,
        ranges.text_start,
        ranges.text_end,
        executable_flags(),
    );
    let (third, ok3) = range_protected(
        second,
        root,
        ranges.text_end,
        ranges.data_start,
        readonly_flags(),
    );
    let (fourth, ok4) = range_protected(
        third,
        root,
        ranges.data_start,
        ranges.kernel_end,
        writable_flags(),
    );
    if !ok0 {
        (split, false)
    } else if !ok1 {
        (first, false)
    } else if !ok2 {
        (second, false)
    } else if !ok3 {
        (third, false)
    } else if !ok4 {
        (fourth, false)
    } else {
        range_protected(
            fourth,
            root,
            paging::aligned_up(ranges.kernel_end, 4096) as u64,
            end as u64,
            readonly_flags(),
        )
    }
}

fn readonly() -> (flags: MapFlags)
    ensures
        flags == readonly_flags(),
{
    MapFlags::present().bitor(MapFlags::global()).bitor(MapFlags::no_execute())
}

fn writable() -> (flags: MapFlags)
    ensures
        flags == writable_flags(),
{
    readonly().bitor(MapFlags::writable())
}

fn executable() -> (flags: MapFlags)
    ensures
        flags == executable_flags(),
{
    MapFlags::present().bitor(MapFlags::global())
}

fn protect_range(
    memory: &mut PageMemory,
    mapper: &ActivePageTable,
    start: u64,
    end: u64,
    flags: MapFlags,
) -> (protected: bool)
    requires
        old(memory).wf(),
    ensures
        final(memory).wf(),
        (final(memory)@, protected) == range_protected(
            old(memory)@,
            mapper.root.spec_u64(),
            start,
            end,
            flags,
        ),
{
    let mut at: u64 = paging::align_down(start, PAGE_SIZE);
    let last: u64 = paging::align_up(end, PAGE_SIZE);
    let ghost first = at;
    while at < last
        invariant
            memory.wf(),
            at % 4096 == 0,
            last % 4096 == 0,
            first == paging::aligned_down(start, 4096),
            last == paging::aligned_up(end, 4096),
            pages_protected(
                memory@,
                mapper.root.spec_u64(),
                at as int,
                last as int,
                flags,
            ) == pages_protected(
                old(memory)@,
                mapper.root.spec_u64(),
                first as int,
                last as int,
                flags,
            ),
        decreases last - at,
    {
        match VirtualAddress::new(at) {
            None => {
                return false;
            },
            Some(page) => {
                if mapper.set_flags_4k(memory, page, flags).is_err() {
                    return false;
                }
            },
        }
        at = at + PAGE_SIZE;
    }
    true
}

fn split_range(memory: &mut PageMemory, mapper: &ActivePageTable, start: u64, end: u64) -> (split:
    bool)
    requires
        old(memory).wf(),
        start % 0x20_0000 == 0,
        end % 0x20_0000 == 0,
    ensures
        final(memory).wf(),
        (final(memory)@, split) == pages_split(
            old(memory)@,
            mapper.root.spec_u64(),
            start as int,
            end as int,
        ),
{
    let mut at: u64 = start;
    while at < end
        invariant
            memory.wf(),
            at % 0x20_0000 == 0,
            end % 0x20_0000 == 0,
            pages_split(memory@, mapper.root.spec_u64(), at as int, end as int) == pages_split(
                old(memory)@,
                mapper.root.spec_u64(),
                start as int,
                end as int,
            ),
        decreases end - at,
    {
        match VirtualAddress::new(at) {
            None => {
                return false;
            },
            Some(page) => {
                if mapper.split_2m(memory, page).is_err() {
                    return false;
                }
            },
        }
        at = at + 0x20_0000;
    }
    true
}

fn split_and_protect(
    memory: &mut PageMemory,
    mapper: &ActivePageTable,
    start: u64,
    end: u64,
    flags: MapFlags,
) -> (protected: bool)
    requires
        old(memory).wf(),
    ensures
        final(memory).wf(),
        (final(memory)@, protected) == split_and_protected(
            old(memory)@,
            mapper.root.spec_u64(),
            start,
            end,
            flags,
        ),
{
    if !split_range(
        memory,
        mapper,
        paging::align_down(start, 0x20_0000),
        paging::align_up(end, 0x20_0000),
    ) {
        return false;
    }
    protect_range(memory, mapper, start, end, flags)
}

fn protect_alias(
    memory: &mut PageMemory,
    mapper: &ActivePageTable,
    start: u64,
    end: u64,
    flags: MapFlags,
) -> (protected: bool)
    requires
        old(memory).wf(),
        start <= DIRECT_MAP_LAST,
        end <= DIRECT_MAP_LAST,
    ensures
        final(memory).wf(),
        (final(memory)@, protected) == alias_protected(
            old(memory)@,
            mapper.root.spec_u64(),
            start,
            end,
            flags,
        ),
{
    split_and_protect(memory, mapper, start, end, flags) && split_and_protect(
        memory,
        mapper,
        PHYSICAL_MEMORY_OFFSET + start,
        PHYSICAL_MEMORY_OFFSET + end,
        flags,
    )
}

fn protect_physical_aliases(
    memory: &mut PageMemory,
    mapper: &ActivePageTable,
    ranges: &KernelRanges,
) -> (protected: bool)
    requires
        old(memory).wf(),
        ranges.in_direct_map(),
    ensures
        final(memory).wf(),
        (final(memory)@, protected) == aliases_protected(
            old(memory)@,
            mapper.root.spec_u64(),
            *ranges,
        ),
{
    protect_alias(
        memory,
        mapper,
        ranges.kernel_phys_start,
        ranges.text_phys_start,
        readonly(),
    ) && protect_alias(
        memory,
        mapper,
        ranges.text_phys_start,
        ranges.text_phys_end,
        readonly(),
    ) && protect_alias(
        memory,
        mapper,
        ranges.text_phys_end,
        ranges.data_phys_start,
        readonly(),
    ) && protect_alias(
        memory,
        mapper,
        ranges.data_phys_start,
        ranges.kernel_phys_end,
        writable(),
    )
}

fn configure_stack_guard(memory: &mut PageMemory, mapper: &ActivePageTable, flags: MapFlags) -> (
    guarded: bool)
    requires
        old(memory).wf(),
    ensures
        final(memory).wf(),
        (final(memory)@, guarded) == stack_guarded(
            old(memory)@,
            mapper.root.spec_u64(),
            flags,
        ),
{
    let guard = match VirtualAddress::new(EARLY_STACK_GUARD) {
        None => {
            return false;
        },
        Some(guard) => guard,
    };
    if mapper.split_2m(memory, guard).is_err() {
        return false;
    }
    if !protect_range(memory, mapper, EARLY_STACK_START, EARLY_STACK_END, flags) {
        return false;
    }
    mapper.unmap_4k(memory, guard).is_ok()
}

/// Sets the flags of the kernel's own mapping.
fn protect_kernel(memory: &mut PageMemory, mapper: &ActivePageTable, ranges: &KernelRanges) -> (
    protected: bool)
    requires
        old(memory).wf(),
    ensures
        final(memory).wf(),
        (final(memory)@, protected) == kernel_protected(
            old(memory)@,
            mapper.root.spec_u64(),
            *ranges,
        ),
{
    let start: u64 = paging::align_down(ranges.kernel_start, 0x20_0000);
    let end: u64 = paging::align_up(ranges.kernel_end, 0x20_0000);
    split_range(memory, mapper, start, end) && protect_range(
        memory,
        mapper,
        start,
        ranges.text_start,
        readonly(),
    ) && protect_range(memory, mapper, ranges.text_start, ranges.text_end, executable())
        && protect_range(memory, mapper, ranges.text_end, ranges.data_start, readonly())
        && protect_range(memory, mapper, ranges.data_start, ranges.kernel_end, writable())
        && protect_range(
        memory,
        mapper,
        paging::align_up(ranges.kernel_end, PAGE_SIZE),
        end,
        readonly(),
    )
}

/// The page where mappings are tried, and the first of two pages beside it.
pub const TRIAL_PAGE: u64 = 0x4000_0000_0000;

pub const TRIAL_RANGE: u64 = 0x4000_0020_0000;

/// Trying to map, translate and unmap, and whether all of it worked and left as many free
/// frames as there were.
pub open spec fn mapping_tried(memory: MemoryView, root: u64) -> (MemoryView, bool) {
    let flags = MapFlags(ENTRY_PRESENT | ENTRY_WRITABLE | ENTRY_NO_EXECUTE);
    match memory.allocated() {
        (after, Err(_)) => (after, false),
        (after, Ok(physical)) => {
            let frame = physical.spec_u64();
            match paging::range_mapped(after, root, TRIAL_PAGE, frame, 1, flags, 0) {
                (failed, Err(_)) => (failed.deallocated(frame).0, false),
                (mapped, Ok(_)) => {
                    let there = paging::translated(mapped, root, TRIAL_PAGE, 4) == Some(frame);
                    let (unmapped, gone) = paging::unmapped(mapped, root, TRIAL_PAGE);
                    let (released, given) = unmapped.deallocated(frame);
                    let (ranged, made) = paging::range_allocated(
                        released,
                        root,
                        TRIAL_RANGE,
                        2,
                        flags,
                        0,
                    );
                    let both = made is Ok && paging::translated(ranged, root, TRIAL_RANGE, 4) is Some
                        && paging::translated(
                        ranged,
                        root,
                        (TRIAL_RANGE + 4096) as u64,
                        4,
                    ) is Some;
                    let (last, freed) = if made is Ok {
                        paging::range_released(ranged, root, TRIAL_RANGE, 2, true, 0)
                    } else {
                        (ranged, made)
                    };
                    (
                        last,
                        there && gone == Ok::<u64, paging::MapError>(frame) && given is Ok && both
                            && freed is Ok && frame::frame_stats(last.frames).free_frames
                            == frame::frame_stats(memory.frames).free_frames,
                    )
                },
            }
        },
    }
}

fn mapping_self_test(memory: &mut PageMemory, mapper: &ActivePageTable) -> (passed: bool)
    requires
        old(memory).wf(),
    ensures
        final(memory).wf(),
        (final(memory)@, passed) == mapping_tried(old(memory)@, mapper.root.spec_u64()),
{
    let free_before: usize = memory.stats().free_frames;
    let page = match VirtualAddress::new(TRIAL_PAGE) {
        None => {
            return false;
        },
        Some(page) => page,
    };
    let range_start = match VirtualAddress::new(TRIAL_RANGE) {
        None => {
            return false;
        },
        Some(page) => page,
    };
    let range_second = match VirtualAddress::new(TRIAL_RANGE + PAGE_SIZE) {
        None => {
            return false;
        },
        Some(page) => page,
    };
    let frame = match memory.allocate() {
        Err(_) => {
            return false;
        },
        Ok(frame) => frame,
    };
    let flags = MapFlags::present().bitor(MapFlags::writable()).bitor(MapFlags::no_execute());
    if mapper.map_range(memory, page, frame, 1, flags).is_err() {
        let _ = memory.deallocate(frame);
        return false;
    }
    let translated = match mapper.translate(memory, page) {
        Some(physical) => physical.as_u64() == frame.as_u64(),
        None => false,
    };
    let unmapped = match mapper.unmap_4k(memory, page) {
        Ok(physical) => physical.as_u64() == frame.as_u64(),
        Err(_) => false,
    };
    let released = memory.deallocate(frame).is_ok();
    let range_mapped = mapper.allocate_range(memory, range_start, 2, flags).is_ok();
    let range_translated = range_mapped && mapper.translate(memory, range_start).is_some()
        && mapper.translate(memory, range_second).is_some();
    let range_released = range_mapped && mapper.release_range(
        memory,
        range_start,
        2,
        true,
    ).is_ok();
    translated && unmapped && released && range_translated && range_released
        && memory.stats().free_frames == free_before
}

/// The bytes that are written and read again.
pub open spec fn pattern() -> Seq<u8> {
    seq![0x52u8, 0x75, 0x73, 0x74, 0x69, 0x78]
}

/// The bytes that a user reads, if it may.
pub open spec fn user_bytes(memory: MemoryView, root: u64, at: u64, length: int) -> Seq<u8> {
    Seq::new(length as nat, |i: int| paging::user_byte(memory, root, at + i))
}

/// Whether what is written for a user at an address is what it reads there.
pub open spec fn round_trip(memory: MemoryView, root: u64, at: u64) -> (MemoryView, bool) {
    let (after, written) = paging::copied_to_user(memory, root, at, pattern());
    (
        after,
        written is Ok && paging::access_checked(after, root, at, 6, false) is Ok && user_bytes(
            after,
            root,
            at,
            6,
        ) == pattern(),
    )
}

/// The page that a user gets on trial, and the end of its stack.
pub const USER_TRIAL_PAGE: u64 = 0x4000_0000;

pub const USER_TRIAL_STACK: u64 = 0x5000_0000;

/// Trying a stack: the page below it is not mapped, and bytes can lie across its pages.
pub open spec fn user_stack_tried(
    memory: MemoryView,
    root: u64,
    stack: Option<UserStack>,
) -> (MemoryView, bool) {
    match stack {
        None => (memory, false),
        Some(stack) => if paging::translated(memory, root, stack.guard_page, 4) is Some {
            (memory, false)
        } else {
            round_trip(memory, root, (stack.bottom + 4093) as u64)
        },
    }
}

/// Whether the user sees its own page and nothing at zero, and the kernel's mapping is
/// there but not for the user.
pub open spec fn user_isolated(
    memory: MemoryView,
    root: u64,
    kernel_root: u64,
    frame: u64,
    kernel_page: u64,
) -> bool {
    &&& paging::translated(memory, root, USER_TRIAL_PAGE, 4) == Some(frame)
    &&& paging::translated(memory, root, kernel_page, 4) == paging::translated(
        memory,
        kernel_root,
        kernel_page,
        4,
    )
    &&& paging::table_ok(root)
    &&& paging::entry_of(memory, root, 0) & ENTRY_USER != 0
    &&& paging::entry_of(memory, root, 511) & ENTRY_USER == 0
    &&& paging::translated(memory, root, 0, 4) is None
}

/// Trying an address space: whether it is isolated, whether bytes reach it and come back,
/// and whether its stack is guarded.
pub open spec fn space_tried(memory: MemoryView, kernel_root: u64, text_start: u64) -> (
    MemoryView,
    (bool, bool, bool),
) {
    let flags = paging::stack_flags();
    let none = (false, false, false);
    if text_start % 4096 != 0 || !address::is_canonical(text_start) {
        (memory, none)
    } else {
        match paging::space_created(memory) {
            (after, Err(_)) => (after, none),
            (created, Ok(root)) => match created.allocated() {
                (after, Err(_)) => (paging::destroyed(after, root, false).0, none),
                (taken, Ok(physical)) => {
                    let frame = physical.spec_u64();
                    match paging::user_mapped(taken, root, USER_TRIAL_PAGE, frame, flags) {
                        (failed, Err(_)) => (
                            paging::destroyed(failed.deallocated(frame).0, root, false).0,
                            none,
                        ),
                        (mapped, Ok(_)) => {
                            let (written, same) = round_trip(
                                mapped,
                                root,
                                (USER_TRIAL_PAGE + 17) as u64,
                            );
                            let copies = same && paging::access_checked(
                                written,
                                root,
                                4095,
                                6,
                                false,
                            ) is Err;
                            let (stacked, result) = paging::stack_mapped(
                                written,
                                root,
                                USER_TRIAL_STACK,
                                2,
                            );
                            let stack = match result {
                                Ok(stack) => Some(stack),
                                Err(_) => None,
                            };
                            let (tried, guarded) = user_stack_tried(stacked, root, stack);
                            let isolated = user_isolated(
                                tried,
                                root,
                                kernel_root,
                                frame,
                                text_start,
                            );
                            let active = tried.switched(root);
                            let used = paging::target_of(active.root) == root;
                            let back = active.switched(kernel_root);
                            let bare = match stack {
                                Some(stack) => paging::pages_released(
                                    back,
                                    root,
                                    stack.bottom,
                                    (stack.top - stack.bottom) / 4096,
                                ),
                                None => back,
                            };
                            let (last, ended) = paging::destroyed(bare, root, true);
                            (last, (isolated && used && ended is Ok, copies, guarded))
                        },
                    }
                },
            },
        }
    }
}

/// Writes the pattern for a user and reads it again.
fn try_round_trip(memory: &mut PageMemory, space: &AddressSpace, at: u64) -> (same: bool)
    requires
        old(memory).wf(),
    ensures
        final(memory).wf(),
        (final(memory)@, same) == round_trip(old(memory)@, space.root.spec_u64(), at),
{
    let bytes: [u8; 6] = [0x52, 0x75, 0x73, 0x74, 0x69, 0x78];
    assert(bytes@ =~= pattern());
    if space.copy_to_user(memory, at, bytes.as_slice()).is_err() {
        return false;
    }
    let mut copied: Vec<u8> = Vec::new();
    let mut index: usize = 0;
    while index < 6
        invariant
            index <= 6,
            copied@.len() == index,
        decreases 6 - index,
    {
        copied.push(0);
        index += 1;
    }
    if space.copy_from_user(memory, at, copied.as_mut_slice()).is_err() {
        return false;
    }
    assert(copied@ =~= user_bytes(memory@, space.root.spec_u64(), at, 6));
    text::equal(copied.as_slice(), bytes.as_slice())
}

fn try_user_stack(memory: &mut PageMemory, space: &AddressSpace, stack: Option<UserStack>) -> (
    guarded: bool)
    requires
        old(memory).wf(),
        stack is Some ==> stack.unwrap().guard_page % 4096 == 0 && stack.unwrap().guard_page
            < 0x8000_0000 && stack.unwrap().bottom < 0x8000_0000,
    ensures
        final(memory).wf(),
        (final(memory)@, guarded) == user_stack_tried(
            old(memory)@,
            space.root.spec_u64(),
            stack,
        ),
{
    match stack {
        None => false,
        Some(stack) => {
            let guard = match VirtualAddress::new(stack.guard_page) {
                None => {
                    return false;
                },
                Some(guard) => guard,
            };
            if space.translate(memory, guard).is_some() {
                return false;
            }
            try_round_trip(memory, space, stack.bottom + PAGE_SIZE - 3)
        },
    }
}

fn is_isolated(
    memory: &PageMemory,
    space: &AddressSpace,
    mapper: &ActivePageTable,
    frame: PhysicalAddress,
    kernel_page: VirtualAddress,
) -> (isolated: bool)
    ensures
        isolated == user_isolated(
            memory@,
            space.root.spec_u64(),
            mapper.root.spec_u64(),
            frame.spec_u64(),
            kernel_page.spec_u64(),
        ),
{
    let user_page = match VirtualAddress::new(USER_TRIAL_PAGE) {
        None => {
            return false;
        },
        Some(page) => page,
    };
    let zero = match VirtualAddress::new(0) {
        None => {
            return false;
        },
        Some(page) => page,
    };
    match space.translate(memory, user_page) {
        None => {
            return false;
        },
        Some(physical) => {
            if physical.as_u64() != frame.as_u64() {
                return false;
            }
        },
    }
    let same = match (space.translate(memory, kernel_page), mapper.translate(memory, kernel_page)) {
        (Some(a), Some(b)) => a.as_u64() == b.as_u64(),
        (None, None) => true,
        _ => false,
    };
    if !same {
        return false;
    }
    let root: u64 = space.root.as_u64();
    match (paging::read_entry(memory, root, 0), paging::read_entry(memory, root, 511)) {
        (Ok(first), Ok(last)) => first & ENTRY_USER != 0 && last & ENTRY_USER == 0
            && space.translate(memory, zero).is_none(),
        _ => false,
    }
}

fn address_space_self_test(
    memory: &mut PageMemory,
    mapper: &ActivePageTable,
    ranges: &KernelRanges,
) -> (result: (bool, bool, bool))
    requires
        old(memory).wf(),
    ensures
        final(memory).wf(),
        (final(memory)@, result) == space_tried(
            old(memory)@,
            mapper.root.spec_u64(),
            ranges.text_start,
        ),
{
    let user_page = match VirtualAddress::new(USER_TRIAL_PAGE) {
        None => {
            return (false, false, false);
        },
        Some(page) => page,
    };
    let kernel_page = match VirtualAddress::new(ranges.text_start) {
        None => {
            return (false, false, false);
        },
        Some(page) => page,
    };
    let space = match AddressSpace::new_user(memory) {
        Err(_) => {
            return (false, false, false);
        },
        Ok(space) => space,
    };
    let frame = match memory.allocate() {
        Err(_) => {
            let _ = space.destroy_empty(memory);
            return (false, false, false);
        },
        Ok(frame) => frame,
    };
    let flags = MapFlags::present().bitor(MapFlags::writable()).bitor(MapFlags::user()).bitor(
        MapFlags::no_execute(),
    );
    if space.map_user(memory, user_page, frame, flags).is_err() {
        let _ = memory.deallocate(frame);
        let _ = space.destroy_empty(memory);
        return (false, false, false);
    }
    let same = try_round_trip(memory, &space, USER_TRIAL_PAGE + 17);
    let copies = same && space.validate_user_range(memory, PAGE_SIZE - 1, 6, false).is_err();
    let stack = match space.map_guarded_stack(memory, USER_TRIAL_STACK, 2) {
        Ok(stack) => Some(stack),
        Err(_) => None,
    };
    let guarded = try_user_stack(memory, &space, stack);
    let isolated = is_isolated(memory, &space, mapper, frame, kernel_page);
    // The processor crosses to the other tables and back, running only what both share.
    let root: u64 = space.root.as_u64();
    memory.switch(root);
    let used = match ActivePageTable::current(memory) {
        Ok(active) => active.root.as_u64() == root,
        Err(_) => false,
    };
    memory.switch(mapper.root.as_u64());
    if let Some(stack) = stack {
        space.release_user_stack(memory, stack);
    }
    let ended = space.destroy(memory).is_ok();
    (isolated && used && ended, copies, guarded)
}

/// Protecting the kernel.
pub open spec fn permissions_set(memory: MemoryView, ranges: KernelRanges) -> (
    MemoryView,
    PagingSecurity,
) {
    let root = paging::target_of(memory.root);
    match kernel_protected(memory, root, ranges) {
        (after, false) => (after, PagingSecurity::spec_failed()),
        (first, true) => {
            let (second, aliases) = aliases_protected(first, root, ranges);
            let (third, unused) = paging::unused_protected(second, root, ranges.kernel_phys_end);
            let (fourth, global) = paging::low_and_direct_protected(third, root);
            let (fifth, guarded) = stack_guarded(fourth, root, writable_flags());
            let (sixth, mapping) = mapping_tried(fifth, root);
            let (last, (isolation, copies, guard)) = space_tried(sixth, root, ranges.text_start);
            (
                last,
                PagingSecurity {
                    write_xor_execute: aliases && unused is Ok && global is Ok && mapping,
                    high_half: ranges.kernel_start >= KERNEL_BASE,
                    user_isolation: isolation,
                    user_copy: copies,
                    user_guard: guard,
                    stack_guard: guarded,
                },
            )
        },
    }
}

/// Protects the kernel: its code is not written, its data is not run, the other mappings
/// of its memory allow neither, and its early stack has a guard.
pub fn initialize_kernel_permissions(memory: &mut PageMemory, ranges: &KernelRanges) -> (security:
    PagingSecurity)
    requires
        old(memory).wf(),
        ranges.in_direct_map(),
    ensures
        final(memory).wf(),
        (final(memory)@, security) == permissions_set(old(memory)@, *ranges),
{
    let mapper = match ActivePageTable::current(memory) {
        Err(_) => {
            return PagingSecurity::failed();
        },
        Ok(mapper) => mapper,
    };
    if !protect_kernel(memory, &mapper, ranges) {
        return PagingSecurity::failed();
    }
    let aliases = protect_physical_aliases(memory, &mapper, ranges);
    let unused = mapper.make_unused_high_kernel_pages_nx(memory, ranges.kernel_phys_end).is_ok();
    let global = mapper.make_identity_and_direct_map_nx(memory).is_ok();
    let guarded = configure_stack_guard(memory, &mapper, writable());
    let mapping = mapping_self_test(memory, &mapper);
    let (isolation, copies, guard) = address_space_self_test(memory, &mapper, ranges);
    PagingSecurity {
        write_xor_execute: aliases && unused && global && mapping,
        high_half: ranges.kernel_start >= KERNEL_BASE,
        user_isolation: isolation,
        user_copy: copies,
        user_guard: guard,
        stack_guard: guarded,
    }
}

/// The flags of the registers of a device.
pub open spec fn device_flags() -> MapFlags {
    MapFlags(
        ENTRY_PRESENT | ENTRY_WRITABLE | ENTRY_NO_EXECUTE | ENTRY_WRITE_THROUGH
            | ENTRY_CACHE_DISABLE,
    )
}

/// Makes the registers of a device uncached where they are mapped, below four gigabytes.
pub fn map_mmio_uncached(memory: &mut PageMemory, physical_start: u64, length: u64) -> (mapped:
    bool)
    requires
        old(memory).wf(),
    ensures
        final(memory).wf(),
        (final(memory)@, mapped) == (if length == 0 || physical_start + length > 0x1_0000_0000 {
            (old(memory)@, false)
        } else {
            alias_protected(
                old(memory)@,
                paging::target_of(old(memory)@.root),
                physical_start,
                (physical_start + length) as u64,
                device_flags(),
            )
        }),
{
    if length == 0 || physical_start >= 0x1_0000_0000 {
        return false;
    }
    let end: u64 = match physical_start.checked_add(length) {
        None => {
            return false;
        },
        Some(end) => end,
    };
    if end > 0x1_0000_0000 {
        return false;
    }
    let mapper = match ActivePageTable::current(memory) {
        Err(_) => {
            return false;
        },
        Ok(mapper) => mapper,
    };
    let flags = MapFlags::present().bitor(MapFlags::writable()).bitor(
        MapFlags::no_execute(),
    ).bitor(MapFlags::write_through()).bitor(MapFlags::cache_disable());
    protect_alias(memory, &mapper, physical_start, end, flags)
}

/// The state after the first `count` pages from `bottom` on were unmapped and their
/// frames given back, as far as they were mapped.
pub open spec fn unwound(memory: MemoryView, root: u64, bottom: u64, count: int) -> MemoryView
    decreases count,
{
    if count <= 0 {
        memory
    } else {
        let before = unwound(memory, root, bottom, count - 1);
        match paging::unmapped(before, root, (bottom + (count - 1) * 4096) as u64) {
            (after, Err(_)) => after,
            (after, Ok(frame)) => after.deallocated(frame).0,
        }
    }
}

/// Mapping the pages of a kernel stack from number `done` on, and whether all were mapped.
pub open spec fn kernel_stack_mapped(
    memory: MemoryView,
    root: u64,
    bottom: u64,
    pages: int,
    done: int,
) -> (MemoryView, bool)
    decreases pages - done,
{
    let page = (bottom + done * 4096) as u64;
    if done >= pages {
        (memory, true)
    } else if !address::is_canonical(page) {
        (memory, false)
    } else {
        match memory.allocated() {
            (after, Err(_)) => (unwound(after, root, bottom, done), false),
            (after, Ok(frame)) => match paging::mapped(
                after,
                root,
                page,
                frame.spec_u64(),
                MapFlags(ENTRY_PRESENT | ENTRY_WRITABLE | ENTRY_NO_EXECUTE),
            ) {
                (failed, Err(_)) => (
                    unwound(failed.deallocated(frame.spec_u64()).0, root, bottom, done),
                    false,
                ),
                (last, Ok(_)) => kernel_stack_mapped(last, root, bottom, pages, done + 1),
            },
        }
    }
}

/// Mapping a kernel stack above a page that must not be mapped; the address of its end.
pub open spec fn kernel_stack_made(memory: MemoryView, bottom: u64, pages: usize) -> (
    MemoryView,
    Option<u64>,
) {
    let root = paging::target_of(memory.root);
    if !(1 <= pages <= 64) || bottom % 4096 != 0 || bottom < 4096 || !address::is_canonical(
        (bottom - 4096) as u64,
    ) {
        (memory, None)
    } else if paging::translated(memory, root, (bottom - 4096) as u64, 4) is Some {
        (memory, None)
    } else {
        match kernel_stack_mapped(memory, root, bottom, pages as int, 0) {
            (after, false) => (after, None),
            (after, true) => (
                after,
                if bottom + pages * 4096 > u64::MAX {
                    None
                } else {
                    Some((bottom + pages * 4096) as u64)
                },
            ),
        }
    }
}

pub fn unwind(memory: &mut PageMemory, mapper: &ActivePageTable, bottom: u64, count: usize)
    requires
        old(memory).wf(),
        bottom % 4096 == 0,
        bottom + count * 4096 <= u64::MAX,
        forall|i: int|
            0 <= i < count ==> #[trigger] address::is_canonical((bottom + i * 4096) as u64),
    ensures
        final(memory).wf(),
        final(memory)@ == unwound(
            old(memory)@,
            mapper.root.spec_u64(),
            bottom,
            count as int,
        ),
{
    let mut done: usize = 0;
    while done < count
        invariant
            done <= count,
            memory.wf(),
            bottom % 4096 == 0,
            bottom + count * 4096 <= u64::MAX,
            forall|i: int|
                0 <= i < count ==> #[trigger] address::is_canonical((bottom + i * 4096) as u64),
            memory@ == unwound(old(memory)@, mapper.root.spec_u64(), bottom, done as int),
        decreases count - done,
    {
        assert(address::is_canonical((bottom + (done as int) * 4096) as u64));
        if let Some(page) = VirtualAddress::new(bottom + done as u64 * PAGE_SIZE) {
            if let Ok(frame) = mapper.unmap_4k(memory, page) {
                let _ = memory.deallocate(frame);
            }
        }
        done += 1;
    }
}

pub fn map_guarded_kernel_stack(memory: &mut PageMemory, bottom: u64, pages: usize) -> (top: Option<
    u64,
>)
    requires
        old(memory).wf(),
        1 <= pages <= 64 ==> bottom + (pages - 1) * 4096 <= u64::MAX,
    ensures
        final(memory).wf(),
        (final(memory)@, top) == kernel_stack_made(old(memory)@, bottom, pages),
{
    if pages == 0 || pages > 64 || bottom % PAGE_SIZE != 0 {
        return None;
    }
    if bottom < PAGE_SIZE {
        return None;
    }
    let guard = match VirtualAddress::new(bottom - PAGE_SIZE) {
        None => {
            return None;
        },
        Some(guard) => guard,
    };
    let mapper = match ActivePageTable::current(memory) {
        Err(_) => {
            return None;
        },
        Ok(mapper) => mapper,
    };
    if mapper.translate(memory, guard).is_some() {
        return None;
    }
    let flags = MapFlags::present().bitor(MapFlags::writable()).bitor(MapFlags::no_execute());
    let ghost root = mapper.root.spec_u64();
    let mut done: usize = 0;
    while done < pages
        invariant
            done <= pages <= 64,
            memory.wf(),
            bottom % 4096 == 0,
            bottom + (pages - 1) * 4096 <= u64::MAX,
            root == mapper.root.spec_u64(),
            flags == MapFlags(ENTRY_PRESENT | ENTRY_WRITABLE | ENTRY_NO_EXECUTE),
            forall|i: int|
                0 <= i < done ==> #[trigger] address::is_canonical((bottom + i * 4096) as u64),
            kernel_stack_made(old(memory)@, bottom, pages) == (match kernel_stack_mapped(
                memory@,
                root,
                bottom,
                pages as int,
                done as int,
            ) {
                (after, false) => (after, None),
                (after, true) => (
                    after,
                    if bottom + pages * 4096 > u64::MAX {
                        None
                    } else {
                        Some((bottom + pages * 4096) as u64)
                    },
                ),
            }),
        decreases pages - done,
    {
        let page = match VirtualAddress::new(bottom + done as u64 * PAGE_SIZE) {
            None => {
                return None;
            },
            Some(page) => page,
        };
        let physical = match memory.allocate() {
            Err(_) => {
                unwind(memory, &mapper, bottom, done);
                return None;
            },
            Ok(frame) => frame,
        };
        if mapper.map_4k(memory, page, physical, flags).is_err() {
            let _ = memory.deallocate(physical);
            unwind(memory, &mapper, bottom, done);
            return None;
        }
        done += 1;
    }
    bottom.checked_add(pages as u64 * PAGE_SIZE)
}

/// Unmapping the pages of a kernel stack from number `done` on, and whether all were.
pub open spec fn kernel_stack_unmapped(
    memory: MemoryView,
    root: u64,
    bottom: u64,
    pages: int,
    done: int,
) -> (MemoryView, bool)
    decreases pages - done,
{
    let page = (bottom + done * 4096) as u64;
    if done >= pages {
        (memory, true)
    } else if page % 4096 != 0 || !address::is_canonical(page) {
        (memory, false)
    } else {
        match paging::unmapped(memory, root, page) {
            (after, Err(_)) => (after, false),
            (after, Ok(frame)) => match after.deallocated(frame) {
                (last, Err(_)) => (last, false),
                (last, Ok(_)) => kernel_stack_unmapped(last, root, bottom, pages, done + 1),
            },
        }
    }
}

pub fn unmap_guarded_kernel_stack(memory: &mut PageMemory, top: u64, pages: usize) -> (unmapped:
    bool)
    requires
        old(memory).wf(),
    ensures
        final(memory).wf(),
        (final(memory)@, unmapped) == (if pages * 4096 > top {
            (old(memory)@, false)
        } else {
            kernel_stack_unmapped(
                old(memory)@,
                paging::target_of(old(memory)@.root),
                (top - pages * 4096) as u64,
                pages as int,
                0,
            )
        }),
{
    let size: u64 = match (pages as u64).checked_mul(PAGE_SIZE) {
        None => {
            return false;
        },
        Some(size) => size,
    };
    let bottom: u64 = match top.checked_sub(size) {
        None => {
            return false;
        },
        Some(bottom) => bottom,
    };
    let mapper = match ActivePageTable::current(memory) {
        Err(_) => {
            return false;
        },
        Ok(mapper) => mapper,
    };
    let ghost root = mapper.root.spec_u64();
    let mut done: usize = 0;
    while done < pages
        invariant
            done <= pages,
            memory.wf(),
            bottom + pages * 4096 == top,
            root == mapper.root.spec_u64(),
            root == paging::target_of(old(memory)@.root),
            kernel_stack_unmapped(memory@, root, bottom, pages as int, done as int)
                == kernel_stack_unmapped(old(memory)@, root, bottom, pages as int, 0),
        decreases pages - done,
    {
        let page = match VirtualAddress::new(bottom + done as u64 * PAGE_SIZE) {
            None => {
                return false;
            },
            Some(page) => page,
        };
        match mapper.unmap_4k(memory, page) {
            Err(_) => {
                return false;
            },
            Ok(frame) => {
                if memory.deallocate(frame).is_err() {
                    return false;
                }
            },
        }
        done += 1;
    }
    true
}

/// Lets code below the lowest entry of the root run, or not.
pub fn set_low_identity_executable(memory: &mut PageMemory, executable: bool) -> (done: bool)
    requires
        old(memory).wf(),
    ensures
        final(memory).wf(),
        ({
            let root = paging::target_of(old(memory)@.root);
            let entry = paging::entry_of(old(memory)@, root, 0);
            (final(memory)@, done) == (if !paging::table_ok(root) || !paging::is_present(entry) {
                (old(memory)@, false)
            } else {
                (
                    paging::with_entry(
                        old(memory)@,
                        root,
                        0,
                        if executable {
                            entry & !ENTRY_NO_EXECUTE
                        } else {
                            entry | ENTRY_NO_EXECUTE
                        },
                    ).switched(root),
                    true,
                )
            })
        }),
{
    let mapper = match ActivePageTable::current(memory) {
        Err(_) => {
            return false;
        },
        Ok(mapper) => mapper,
    };
    let root: u64 = mapper.root.as_u64();
    match paging::read_entry(memory, root, 0) {
        Err(_) => false,
        Ok(entry) => {
            if entry & ENTRY_PRESENT == 0 {
                return false;
            }
            let changed: u64 = if executable {
                entry & !ENTRY_NO_EXECUTE
            } else {
                entry | ENTRY_NO_EXECUTE
            };
            paging::write_entry(memory, root, 0, changed);
            memory.switch(root);
            true
        },
    }
}

} // verus!

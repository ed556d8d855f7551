//! Memory: frames, page tables, the heap, and what the kernel knows of it after its start.
pub mod address;
pub mod frame;
pub mod heap;
pub mod paging;
pub mod physical;
pub mod user;

use crate::boot;
use crate::boot::memory_map;
use crate::boot::memory_map::{BootMemory, MemoryMap, MemorySource};
use crate::mm::frame::{FrameView, PhysicalFrames};
use crate::mm::heap::{GlobalKernelAllocator, HeapView};
use crate::mm::paging::protection;
use crate::mm::paging::protection::KernelRanges;
use crate::mm::physical::{MemoryView, PageMemory};
use vstd::prelude::*;

verus! {

/// What the start of the memory management found and achieved.
#[derive(Clone, Copy, Debug, PartialEq, Eq, Structural)]
pub struct MemorySummary {
    pub source: MemorySource,
    pub regions: usize,
    pub usable_bytes: u64,
    pub free_frames: usize,
    pub numa_nodes: usize,
    pub numa_local_allocations: u64,
    pub numa_fallback_allocations: u64,
    pub allocator_self_test: bool,
    pub write_xor_execute: bool,
    pub high_half: bool,
    pub user_isolation: bool,
    pub user_copy: bool,
    pub user_guard: bool,
    pub stack_guard: bool,
    pub heap_bytes: u64,
    pub heap_self_test: bool,
    pub smep: bool,
    pub smap: bool,
}

/// The memory of the kernel: the map it was started with, its frames and tables, and its
/// heap.
pub struct KernelMemory {
    pub map: MemoryMap,
    pub memory: PageMemory,
    pub heap: GlobalKernelAllocator,
}

/// What the processor keeps the kernel from doing with the memory of users.
#[derive(Clone, Copy, Debug, PartialEq, Eq, Structural)]
pub struct SupervisorProtections {
    pub smep: bool,
    pub smap: bool,
}

/// Trying the frame allocator with one frame, and whether it came back.
pub open spec fn frames_tried(memory: MemoryView) -> (MemoryView, bool) {
    match memory.allocated() {
        (after, Err(_)) => (after, false),
        (after, Ok(frame)) => {
            let (last, result) = after.deallocated(frame.spec_u64());
            (last, result is Ok)
        },
    }
}

/// The start of the memory management on a machine with this map.
pub open spec fn memory_started(
    map: memory_map::MemoryMapView,
    memory: MemoryView,
    heap: HeapView,
    oom_events: u64,
    ranges: KernelRanges,
    supervisor: SupervisorProtections,
) -> (MemoryView, HeapView, MemorySummary) {
    let mapped = MemoryView {
        frames: frame::initialized_view(map, ranges.kernel_phys_start, ranges.kernel_phys_end),
        ..memory
    };
    let (frames, frame_test) = frames_tried(mapped);
    let (safe, security) = protection::permissions_set(frames, ranges);
    let (last, heap_after, heap_result) = heap::heap_started(safe, heap, oom_events);
    let stats = frame::frame_stats(last.frames);
    (
        last,
        heap_after,
        MemorySummary {
            source: map.source,
            regions: map.regions.len() as usize,
            usable_bytes: memory_map::usable(map.regions, map.regions.len()) as u64,
            free_frames: stats.free_frames,
            numa_nodes: stats.numa_nodes,
            numa_local_allocations: stats.local_allocations,
            numa_fallback_allocations: stats.fallback_allocations,
            allocator_self_test: frame_test,
            write_xor_execute: security.write_xor_execute,
            high_half: security.high_half,
            user_isolation: security.user_isolation,
            user_copy: security.user_copy,
            user_guard: security.user_guard,
            stack_guard: security.stack_guard,
            heap_bytes: match heap_result {
                Ok(stats) => stats.size,
                Err(_) => 0,
            },
            heap_self_test: match heap_result {
                Ok(stats) => stats.self_test,
                Err(_) => false,
            },
            smep: supervisor.smep,
            smap: supervisor.smap,
        },
    )
}

/// Starts the memory management of an x86_64 machine: reads the map of the boot protocol,
/// makes its frames free, protects the kernel and starts its heap.
pub fn initialize(
    state: &mut KernelMemory,
    boot_memory: &BootMemory,
    protocol: u64,
    information: u64,
    ranges: &KernelRanges,
    supervisor: SupervisorProtections,
) -> (summary: MemorySummary)
    requires
        old(state).memory.wf(),
        old(state).heap.heap().wf(),
        boot_memory.platform is X86_64,
        ranges.in_direct_map(),
    ensures
        final(state).memory.wf(),
        final(state).heap.heap().wf(),
        boot::is_map_of(*boot_memory, protocol, information, final(state).map@),
        (final(state).memory@, final(state).heap.heap(), summary) == memory_started(
            final(state).map@,
            old(state).memory@,
            old(state).heap.heap(),
            old(state).heap.spec_oom_events(),
            *ranges,
            supervisor,
        ),
{
    state.map = boot::parse_memory_map(boot_memory, protocol, information);
    state.memory.initialize_frames(
        &state.map,
        ranges.kernel_phys_start,
        ranges.kernel_phys_end,
    );
    let allocator_self_test = match state.memory.allocate() {
        Ok(frame) => state.memory.deallocate(frame).is_ok(),
        Err(_) => false,
    };
    let security = protection::initialize_kernel_permissions(&mut state.memory, ranges);
    let (heap_bytes, heap_self_test): (u64, bool) = match heap::initialize(
        &mut state.memory,
        &mut state.heap,
    ) {
        Ok(stats) => (stats.size, stats.self_test),
        Err(_) => (0, false),
    };
    let stats = state.memory.stats();
    MemorySummary {
        source: state.map.source(),
        regions: state.map.regions().len(),
        usable_bytes: state.map.usable_bytes(),
        free_frames: stats.free_frames,
        numa_nodes: stats.numa_nodes,
        numa_local_allocations: stats.local_allocations,
        numa_fallback_allocations: stats.fallback_allocations,
        allocator_self_test,
        write_xor_execute: security.write_xor_execute,
        high_half: security.high_half,
        user_isolation: security.user_isolation,
        user_copy: security.user_copy,
        user_guard: security.user_guard,
        stack_guard: security.stack_guard,
        heap_bytes,
        heap_self_test,
        smep: supervisor.smep,
        smap: supervisor.smap,
    }
}

/// The memory of a kernel that has neither page tables to change nor a heap: the map it was
/// started with, and its frames.
pub struct FrameMemory {
    pub map: MemoryMap,
    pub frames: PhysicalFrames,
}

/// Trying the frames with one of them, and whether it came back.
pub open spec fn one_frame_tried(frames: FrameView, node: int) -> (FrameView, bool) {
    match frame::allocation(frames, node) {
        (after, Err(_)) => (after, false),
        (after, Ok(frame)) => {
            let (last, result) = frame::deallocation(after, frame.spec_u64());
            (last, result is Ok)
        },
    }
}

/// The start of the memory management on an aarch64 machine with this map.
pub open spec fn frames_started(
    map: memory_map::MemoryMapView,
    node: int,
    kernel_start: u64,
    kernel_end: u64,
    write_xor_execute: bool,
    stack_guard: bool,
) -> (FrameView, MemorySummary) {
    let (last, frame_test) = one_frame_tried(
        frame::initialized_view(map, kernel_start, kernel_end),
        node,
    );
    let stats = frame::frame_stats(last);
    (
        last,
        MemorySummary {
            source: map.source,
            regions: map.regions.len() as usize,
            usable_bytes: memory_map::usable(map.regions, map.regions.len()) as u64,
            free_frames: stats.free_frames,
            numa_nodes: stats.numa_nodes,
            numa_local_allocations: stats.local_allocations,
            numa_fallback_allocations: stats.fallback_allocations,
            allocator_self_test: frame_test,
            write_xor_execute,
            high_half: false,
            user_isolation: false,
            user_copy: false,
            user_guard: false,
            stack_guard,
            heap_bytes: 0,
            heap_self_test: false,
            smep: false,
            smap: false,
        },
    )
}

/// Starts the memory management of an aarch64 machine: reads the map of the boot protocol and
/// makes its frames free. How the kernel is protected was settled before, and is said by the
/// machine; there is no heap.
pub fn initialize_aarch64(
    state: &mut FrameMemory,
    boot_memory: &BootMemory,
    protocol: u64,
    information: u64,
    cpu: u32,
    kernel_start: u64,
    kernel_end: u64,
    write_xor_execute: bool,
    stack_guard: bool,
) -> (summary: MemorySummary)
    requires
        old(state).frames.wf(),
        !(boot_memory.platform is X86_64),
    ensures
        final(state).frames.wf(),
        final(state).frames.cpu_nodes() == old(state).frames.cpu_nodes(),
        boot::is_map_of(*boot_memory, protocol, information, final(state).map@),
        (final(state).frames.view(), summary) == frames_started(
            final(state).map@,
            old(state).frames.cpu_nodes()[frame::cpu_slot(cpu)] as int % 8,
            kernel_start,
            kernel_end,
            write_xor_execute,
            stack_guard,
        ),
{
    state.map = boot::parse_memory_map(boot_memory, protocol, information);
    let _ = frame::initialize(&mut state.frames, &state.map, kernel_start, kernel_end);
    let ghost node = old(state).frames.cpu_nodes()[frame::cpu_slot(cpu)] as int % 8;
    let ghost begun = state.frames.view();
    proof {
        state.frames.lemma_consistent();
    }
    let tried = frame::allocate(&mut state.frames, cpu);
    let ghost middle = state.frames.view();
    proof {
        frame::lemma_allocation(begun, middle, node, tried);
        state.frames.lemma_consistent();
    }
    let allocator_self_test = match tried {
        Ok(taken) => {
            let returned = frame::deallocate(&mut state.frames, taken);
            proof {
                frame::lemma_deallocation(
                    middle,
                    state.frames.view(),
                    taken.spec_u64(),
                    returned,
                );
            }
            returned.is_ok()
        },
        Err(_) => false,
    };
    let stats = frame::stats(&state.frames);
    MemorySummary {
        source: state.map.source(),
        regions: state.map.regions().len(),
        usable_bytes: state.map.usable_bytes(),
        free_frames: stats.free_frames,
        numa_nodes: stats.numa_nodes,
        numa_local_allocations: stats.local_allocations,
        numa_fallback_allocations: stats.fallback_allocations,
        allocator_self_test,
        write_xor_execute,
        high_half: false,
        user_isolation: false,
        user_copy: false,
        user_guard: false,
        stack_guard,
        heap_bytes: 0,
        heap_self_test: false,
        smep: false,
        smap: false,
    }
}

/// Lets an operation see the memory map.
pub fn with_memory_map<R, F: FnOnce(&MemoryMap) -> R>(state: &KernelMemory, operation: F) -> (
    result: R)
    requires
        operation.requires((&state.map,)),
    ensures
        operation.ensures((&state.map,), result),
{
    operation(&state.map)
}

} // verus!

use rustix_vkernel::arch::Platform;
use rustix_vkernel::boot::memory_map::{MemoryMap, MemoryRegionKind, MemorySource};
use rustix_vkernel::mm::address::{PhysicalAddress, VirtualAddress};
use rustix_vkernel::mm::frame::{self, FrameError, NumaRange, PhysicalFrames};
use rustix_vkernel::mm::heap::{GlobalKernelAllocator, HeapError, KernelHeap, Layout};
use rustix_vkernel::mm::paging::{AddressSpace, MapError, MapFlags, UserCopyError};
use rustix_vkernel::mm::physical::PageMemory;
use rustix_vkernel::mm::user::{self, UserAccess, UserRangeError};

fn small_map() -> MemoryMap {
    let mut map = MemoryMap::new(Platform::X86_64, MemorySource::Multiboot2);
    assert!(map.push(0, 0x80_0000, MemoryRegionKind::Usable));
    map.normalize();
    map
}

fn frames() -> Box<PhysicalFrames> {
    let mut frames = Box::new(PhysicalFrames::new());
    let map = small_map();
    let _ = frame::initialize(&mut frames, &map, 0x10_0000, 0x20_0000);
    frames
}

#[test]
fn machines_differ_in_the_memory_that_they_can_use() {
    let mut small = MemoryMap::new(Platform::X86_64, MemorySource::DeviceTree);
    assert!(small.push(0x3_0000_0000, 0x2_0000_0000, MemoryRegionKind::Usable));
    assert_eq!(small.usable_bytes(), 0);
    let mut large = MemoryMap::new(Platform::Rpi5, MemorySource::DeviceTree);
    assert!(large.push(0x3_0000_0000, 0x2_0000_0000, MemoryRegionKind::Usable));
    assert_eq!(large.usable_bytes(), 0x1_0000_0000);
    large.normalize();
    let mut frames = PhysicalFrames::new();
    let _ = frame::initialize(&mut frames, &large, 0x10_0000, 0x20_0000);
    let taken = frame::allocate(&mut frames, 0).unwrap();
    assert_eq!(taken.as_u64(), 0x3_0000_0000);
    assert_eq!(frame::deallocate(&mut frames, taken), Ok(()));
    assert_eq!(frame::deallocate(&mut frames, taken), Err(FrameError::DoubleFree));
    let mut others = frames_of(Platform::X86_64);
    assert_eq!(frame::stats(&others).free_frames, 0x1def);
    assert_eq!(frame::deallocate(&mut others, taken), Err(FrameError::InvalidFrame));
    assert_eq!(frame::stats(&frames_of(Platform::QemuVirt)).free_frames, 0x1e00);
}

fn frames_of(platform: Platform) -> PhysicalFrames {
    let mut map = MemoryMap::new(platform, MemorySource::DeviceTree);
    assert!(map.push(0, 0x200_0000, MemoryRegionKind::Usable));
    map.normalize();
    let mut frames = PhysicalFrames::new();
    let _ = frame::initialize(&mut frames, &map, 0x10_0000, 0x20_0000);
    frames
}

#[test]
fn memory_maps_get_their_normal_form() {
    let mut map = MemoryMap::new(Platform::X86_64, MemorySource::BiosE820);
    assert!(map.push(0x1000, 0x3000, MemoryRegionKind::Usable));
    assert!(map.push(0x2000, 0x1000, MemoryRegionKind::Reserved));
    assert!(map.push(0x4000, 0x1000, MemoryRegionKind::Usable));
    map.normalize();
    let regions: Vec<(u64, u64, MemoryRegionKind)> = map
        .regions()
        .iter()
        .map(|region| (region.start, region.end, region.kind))
        .collect();
    assert_eq!(
        regions,
        vec![
            (0x1000, 0x2000, MemoryRegionKind::Usable),
            (0x2000, 0x3000, MemoryRegionKind::Reserved),
            (0x3000, 0x5000, MemoryRegionKind::Usable),
        ]
    );
    assert_eq!(map.usable_bytes(), 0x3000);
    assert_eq!(map.source().name(), "BIOS E820");
}

#[test]
fn addresses_must_be_canonical_and_aligned() {
    assert_eq!(PhysicalAddress::new(0x2000).map(|address| address.as_u64()), Some(0x2000));
    assert!(PhysicalAddress::new(0x2001).is_none());
    assert!(VirtualAddress::new(0x0000_8000_0000_0000).is_none());
    let high = VirtualAddress::new(0xffff_8000_0000_0000).unwrap();
    assert_eq!(high.page_index(4), 256);
    assert_eq!(VirtualAddress::new(0x40_1000).unwrap().page_index(1), 1);
}

#[test]
fn user_ranges_stay_in_the_lower_half() {
    let range = user::checked_user_range(0x40_0000, 16, UserAccess::Write).unwrap();
    assert_eq!((range.start(), range.end(), range.length()), (0x40_0000, 0x40_0010, 16));
    assert!(user::checked_user_range(0xffff_8000_0000_0000, 1, UserAccess::Read).is_err());
    assert!(user::checked_user_range(u64::MAX, 16, UserAccess::Read).is_err());
    assert_eq!(user::checked_user_length(64, 64), Ok(64));
    let too_long: Result<usize, UserRangeError> = user::checked_user_length(65, 64);
    assert!(too_long.is_err());
}

#[test]
fn frames_are_given_out_once() {
    let mut frames = frames();
    let before = frame::stats(&frames).free_frames;
    let first = frame::allocate(&mut frames, 0).unwrap();
    let second = frame::allocate(&mut frames, 0).unwrap();
    assert_ne!(first.as_u64(), second.as_u64());
    assert_eq!(frame::stats(&frames).free_frames, before - 2);
    assert_eq!(frame::deallocate(&mut frames, first), Ok(()));
    assert_eq!(frame::deallocate(&mut frames, first), Err(FrameError::DoubleFree));
    assert_eq!(frame::deallocate(&mut frames, second), Ok(()));
    assert_eq!(frame::stats(&frames).free_frames, before);
}

#[test]
fn reserved_frames_are_never_given_out() {
    let mut frames = frames();
    let mut count = 0usize;
    while let Ok(address) = frame::allocate(&mut frames, 0) {
        let address = address.as_u64();
        assert!(address >= 0x20_0000 || address < 0x10_0000);
        assert!(address < 0x80_0000);
        count += 1;
    }
    assert!(count > 0);
    assert_eq!(frame::allocate(&mut frames, 0).err(), Some(FrameError::OutOfMemory));
}

#[test]
fn frames_refuse_to_start_twice_and_unknown_frames() {
    let mut empty = Box::new(PhysicalFrames::new());
    assert_eq!(frame::allocate(&mut empty, 0).err(), Some(FrameError::NotInitialized));
    let mut frames = frames();
    let far = PhysicalAddress::new(0xf_ffff_f000).unwrap();
    assert_eq!(frame::deallocate(&mut frames, far), Err(FrameError::InvalidFrame));
}

#[test]
fn nodes_must_cover_the_frames() {
    let mut frames = frames();
    let whole = [NumaRange { node: 0, start: 0, end: 0x40_0000 }, NumaRange {
        node: 1,
        start: 0x40_0000,
        end: 0x80_0000,
    }];
    assert!(frame::configure_topology(&mut frames, &whole).is_ok());
    assert_eq!(frame::set_cpu_node(&mut frames, 3, 1), Ok(()));
    assert_eq!(frame::current_node(&frames, 3), 1);
    let frame = frame::allocate_on_node(&mut frames, 1).unwrap();
    assert!(frame.as_u64() >= 0x40_0000);
    let none: [NumaRange; 0] = [];
    assert_eq!(
        frame::configure_topology(&mut frames, &none).err(),
        Some(FrameError::InvalidTopology)
    );
}

#[test]
fn heap_blocks_are_apart_and_come_back() {
    let mut heap = KernelHeap::new();
    assert_eq!(heap.allocate(Layout { size: 16, align: 8 }), None);
    assert_eq!(heap.initialize(), Ok(()));
    assert_eq!(heap.initialize(), Err(HeapError::AlreadyInitialized));
    let first = heap.allocate(Layout { size: 100, align: 64 }).unwrap();
    let second = heap.allocate(Layout { size: 100, align: 8 }).unwrap();
    assert_eq!(first % 64, 0);
    assert!(second >= first + 100 || first >= second + 100);
    assert!(heap.deallocate(first).is_some());
    assert!(heap.deallocate(first).is_none());
    assert_eq!(heap.allocate(Layout { size: 100, align: 64 }), Some(first));
    assert_eq!(heap.allocate(Layout { size: 1 << 40, align: 8 }), None);
}

#[test]
fn the_allocator_counts_failures() {
    let mut allocator = GlobalKernelAllocator::new();
    assert!(allocator.allocate(Layout { size: 8, align: 8 }).is_none());
    let stats = rustix_vkernel::mm::heap::stats(&allocator);
    assert_eq!((stats.used, stats.allocations, stats.oom_events), (0, 0, 1));
}

fn memory() -> PageMemory {
    let root = 0x30_0000;
    let mut memory = PageMemory::new(*frames(), 0, root);
    let map = small_map();
    memory.initialize_frames(&map, 0x10_0000, 0x40_0000);
    memory.zero_frame(root);
    memory
}

#[test]
fn pages_are_mapped_and_unmapped() {
    let mut memory = memory();
    let space = AddressSpace::new_user(&mut memory).ok().unwrap();
    let page = VirtualAddress::new(0x40_0000).unwrap();
    let frame = memory.allocate().unwrap();
    let flags = MapFlags::present().bitor(MapFlags::user()).bitor(MapFlags::writable()).bitor(
        MapFlags::no_execute(),
    );
    assert_eq!(space.map_user(&mut memory, page, frame, flags), Ok(()));
    assert_eq!(space.map_user(&mut memory, page, frame, flags), Err(MapError::AlreadyMapped));
    assert_eq!(
        space.translate(&memory, page).map(|address| address.as_u64()),
        Some(frame.as_u64())
    );
    assert_eq!(
        space.unmap_user(&mut memory, page).map(|address| address.as_u64()),
        Ok(frame.as_u64())
    );
    assert!(space.translate(&memory, page).is_none());
    assert_eq!(space.unmap_user(&mut memory, page).err(), Some(MapError::NotMapped));
}

#[test]
fn pages_are_not_both_written_and_run() {
    let mut memory = memory();
    let space = AddressSpace::new_user(&mut memory).ok().unwrap();
    let page = VirtualAddress::new(0x40_0000).unwrap();
    let frame = memory.allocate().unwrap();
    let flags = MapFlags::present().bitor(MapFlags::user()).bitor(MapFlags::writable());
    assert_eq!(
        space.map_user(&mut memory, page, frame, flags),
        Err(MapError::PermissionDenied)
    );
}

#[test]
fn what_is_copied_to_a_user_comes_back() {
    let mut memory = memory();
    let space = AddressSpace::new_user(&mut memory).ok().unwrap();
    let flags = MapFlags::present().bitor(MapFlags::user()).bitor(MapFlags::writable()).bitor(
        MapFlags::no_execute(),
    );
    let start = VirtualAddress::new(0x40_0000).unwrap();
    assert_eq!(space.allocate_range(&mut memory, start, 2, flags), Ok(()));
    let sent = [7u8, 8, 9, 10];
    assert_eq!(space.copy_to_user(&mut memory, 0x40_0ffe, &sent), Ok(()));
    let mut back = [0u8; 4];
    assert_eq!(space.copy_from_user(&memory, 0x40_0ffe, &mut back), Ok(()));
    assert_eq!(back, sent);
    assert_eq!(
        space.copy_to_user(&mut memory, 0x40_1ffe, &sent),
        Err(UserCopyError::NotMapped)
    );
    assert_eq!(
        space.copy_from_user(&memory, 0xffff_8000_0000_0000, &mut back),
        Err(UserCopyError::InvalidRange)
    );
}

#[test]
fn stacks_have_a_guard_page() {
    let mut memory = memory();
    let space = AddressSpace::new_user(&mut memory).ok().unwrap();
    let stack = space.map_guarded_stack(&mut memory, 0x7fff_0000_0000, 4).ok().unwrap();
    assert_eq!(stack.top, 0x7fff_0000_0000);
    let inside = VirtualAddress::new(stack.top - 0x1000).unwrap();
    assert!(space.translate(&memory, inside).is_some());
    let guard = VirtualAddress::new(stack.bottom - 0x1000).unwrap();
    assert!(space.translate(&memory, guard).is_none());
}

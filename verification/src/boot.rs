//! What the boot loader hands to the kernel.
pub mod device_tree;
pub mod firmware;
pub mod memory_map;

pub use device_tree::{discover_hardware, CpuBootInfo, HardwareDiscovery, PsciConduit};
pub use memory_map::{BootMemory, MemoryMap, MemoryRegionKind, MemorySource};

use vstd::prelude::*;

verus! {

pub const PROTOCOL_BIOS: u64 = 0x5258_4249;

pub const PROTOCOL_MULTIBOOT2: u64 = 0x36d7_6289;

pub const PROTOCOL_UEFI: u64 = 0x5545_4649;

pub const PROTOCOL_DEVICE_TREE: u64 = 0x5258_4454;

/// The memory map that the boot protocol puts at `information`.
pub open spec fn is_map_of(
    memory: BootMemory,
    protocol: u64,
    information: u64,
    map: memory_map::MemoryMapView,
) -> bool {
    &&& protocol == PROTOCOL_BIOS ==> firmware::map_from(
        memory.platform,
        map,
        MemorySource::BiosE820,
        firmware::handoff_found(memory, information, MemorySource::BiosE820),
    )
    &&& protocol == PROTOCOL_MULTIBOOT2 ==> firmware::map_from(
        memory.platform,
        map,
        MemorySource::Multiboot2,
        firmware::multiboot_found(memory, information),
    )
    &&& protocol == PROTOCOL_UEFI ==> firmware::map_from(
        memory.platform,
        map,
        MemorySource::Uefi,
        firmware::handoff_found(memory, information, MemorySource::Uefi),
    )
    &&& protocol == PROTOCOL_DEVICE_TREE ==> firmware::map_from(
        memory.platform,
        map,
        MemorySource::DeviceTree,
        firmware::device_tree_found(memory, information),
    )
    &&& (protocol != PROTOCOL_BIOS && protocol != PROTOCOL_MULTIBOOT2 && protocol != PROTOCOL_UEFI
        && protocol != PROTOCOL_DEVICE_TREE) ==> map == memory_map::empty_map(
        memory.platform,
        MemorySource::Unknown,
    )
}

/// Reads the memory map that the boot protocol puts at `information`.
pub fn parse_memory_map(memory: &BootMemory, protocol: u64, information: u64) -> (map: MemoryMap)
    ensures
        is_map_of(*memory, protocol, information, map@),
        map@.platform == memory.platform,
{
    if protocol == PROTOCOL_BIOS {
        firmware::parse_handoff(memory, information, MemorySource::BiosE820)
    } else if protocol == PROTOCOL_MULTIBOOT2 {
        firmware::parse_multiboot2(memory, information)
    } else if protocol == PROTOCOL_UEFI {
        firmware::parse_handoff(memory, information, MemorySource::Uefi)
    } else if protocol == PROTOCOL_DEVICE_TREE {
        firmware::parse_device_tree(memory, information)
    } else {
        MemoryMap::new(memory.platform, MemorySource::Unknown)
    }
}

} // verus!

use rustix_vkernel::arch::Platform;
use rustix_vkernel::boot::memory_map::{MemoryMap, MemoryRegionKind, MemorySource};
use rustix_vkernel::kernel::elf::{load_process, LoadError};
use rustix_vkernel::linux::elf::ElfError;
use rustix_vkernel::mm::address::VirtualAddress;
use rustix_vkernel::mm::frame::PhysicalFrames;
use rustix_vkernel::mm::paging::AddressSpace;
use rustix_vkernel::mm::physical::PageMemory;

fn put(image: &mut [u8], at: usize, bytes: &[u8]) {
    image[at..at + bytes.len()].copy_from_slice(bytes);
}

fn image(kind: u16, base: u64, flags: u32) -> Vec<u8> {
    let mut image = vec![0u8; 0x1010];
    put(&mut image, 0, &[0x7f, b'E', b'L', b'F', 2, 1, 1]);
    put(&mut image, 16, &kind.to_le_bytes());
    put(&mut image, 18, &62u16.to_le_bytes());
    put(&mut image, 20, &1u32.to_le_bytes());
    put(&mut image, 24, &(base + 0x1000).to_le_bytes());
    put(&mut image, 32, &64u64.to_le_bytes());
    put(&mut image, 52, &64u16.to_le_bytes());
    put(&mut image, 54, &56u16.to_le_bytes());
    put(&mut image, 56, &1u16.to_le_bytes());
    put(&mut image, 64, &1u32.to_le_bytes());
    put(&mut image, 68, &flags.to_le_bytes());
    put(&mut image, 72, &0u64.to_le_bytes());
    put(&mut image, 80, &base.to_le_bytes());
    put(&mut image, 88, &base.to_le_bytes());
    put(&mut image, 96, &0x1010u64.to_le_bytes());
    put(&mut image, 104, &0x1010u64.to_le_bytes());
    put(&mut image, 112, &0x1000u64.to_le_bytes());
    put(&mut image, 0x1000, &[0x90, 0xc3]);
    image
}

fn memory() -> PageMemory {
    let mut memory = PageMemory::new(PhysicalFrames::new(), 0, 0x30_0000);
    let mut map = MemoryMap::new(Platform::X86_64, MemorySource::Multiboot2);
    assert!(map.push(0, 0x80_0000, MemoryRegionKind::Usable));
    map.normalize();
    memory.initialize_frames(&map, 0x10_0000, 0x40_0000);
    memory.zero_frame(0x30_0000);
    memory
}

#[test]
fn programs_are_loaded() {
    let mut memory = memory();
    let main = image(2, 0x40_0000, 5);
    let vdso = image(3, 0, 5);
    let process = match load_process(&mut memory, &main, None, &vdso, &["init"], &["A=1"], 7) {
        Ok(process) => process,
        Err(error) => panic!("{:?}", error),
    };
    assert_eq!(process.entry, 0x40_1000);
    assert_eq!(process.stack_pointer % 16, 0);
    let space = AddressSpace::from_root(process.cr3).ok().unwrap();
    let page = VirtualAddress::new(0x40_1000).unwrap();
    assert!(space.translate(&memory, page).is_some());
    let mut code = [0u8; 2];
    assert_eq!(space.copy_from_user(&memory, 0x40_1000, &mut code), Ok(()));
    assert_eq!(code, [0x90, 0xc3]);
    let mut count = [0u8; 8];
    assert_eq!(space.copy_from_user(&memory, process.stack_pointer, &mut count), Ok(()));
    assert_eq!(u64::from_le_bytes(count), 1);
    assert!(space.copy_to_user(&mut memory, 0x40_1000, &[0]).is_err());
}

#[test]
fn programs_that_cannot_be_loaded_are_refused() {
    let mut memory = memory();
    let free = memory.stats().free_frames;
    let main = image(2, 0x40_0000, 5);
    let vdso = image(3, 0, 5);
    assert_eq!(
        load_process(&mut memory, &main, None, &vdso, &[], &[], 7).err(),
        Some(LoadError::InvalidArguments)
    );
    assert_eq!(
        load_process(&mut memory, &main[..20], None, &vdso, &["init"], &[], 7).err(),
        Some(LoadError::Elf(ElfError::Truncated))
    );
    assert_eq!(
        load_process(&mut memory, &main, None, &main, &["init"], &[], 7).err(),
        Some(LoadError::InvalidVdso)
    );
    let both = image(2, 0x40_0000, 7);
    let refused = load_process(&mut memory, &both, None, &vdso, &["init"], &[], 7).err();
    assert_eq!(refused, Some(LoadError::WriteExecute(0x40_0000)));
    assert_eq!(
        LoadError::WriteExecute(0x40_0000).console_line().unwrap().as_bytes(),
        b"[dbg] wx-page va=0000000000400000\n"
    );
    assert!(LoadError::OutOfMemory.console_line().is_none());
    assert_eq!(memory.stats().free_frames, free);
}

use rustix_vkernel::arch::aarch64::gic;
use rustix_vkernel::arch::aarch64::rp1::Rp1Info;
use rustix_vkernel::arch::Platform;
use rustix_vkernel::boot;
use rustix_vkernel::boot::device_tree;
use rustix_vkernel::boot::firmware;
use rustix_vkernel::boot::memory_map::{BootMemory, MemoryMap, MemoryRegionKind, MemorySource};
use rustix_vkernel::initramfs::RootMountSummary;
use rustix_vkernel::mm::frame::PhysicalFrames;
use rustix_vkernel::mm::heap::{HeapStats, Layout};
use rustix_vkernel::mm::{self, FrameMemory};
use rustix_vkernel::screen::video;
use rustix_vkernel::startup::{self, SchedulerSummary, StorageSummary};

#[test]
fn the_start_is_told() {
    assert_eq!(
        startup::boot_line(0x36d76289, 0x1000).as_str(),
        "[boot] protocol=0x36d76289 information=0x1000\n"
    );
    assert_eq!(startup::fastpath_line(true).as_str(), "[c-fastpath] ABI/self-test=ok\n");
    assert_eq!(
        startup::video_line(video::default_video_mode(), false).as_str(),
        "[video] source=none mode=320x200x8 graphics=off\n"
    );
    assert_eq!(
        startup::gic_line(gic::state(1, 0xf, 0, 0, 0x7ff)).as_str(),
        "[gic] dist=0x1 cpu=0xf group=0x0 pending=0x0 highest=1023\n"
    );
    let rp1 = Rp1Info {
        controller: 0x10_0012_0000,
        link_up: true,
        found: true,
        vendor: 0x1de4,
        device: 1,
        bus: 1,
        slot: 0,
        function: 0,
        bar0: 0x1f_0000_0000,
    };
    assert_eq!(
        startup::rp1_line(rp1).as_str(),
        "[rp1] pcie=0x1000120000 link=up device=1de4:0001 bdf=01:00.0 bar0=0x1f00000000\n"
    );
    let storage = StorageSummary {
        ata_present: true,
        ahci_present: false,
        nvme_present: false,
        async_queue_depth: 8,
        block_self_test: true,
        async_self_test: false,
        ext_self_test: true,
    };
    assert_eq!(
        startup::storage_line(storage).as_str(),
        "[storage] ATA=present AHCI=absent NVMe=absent async-depth=8 block-io=ok async-io=failed ext2/ext4=ok\n"
    );
    let root = RootMountSummary { mounted: true, entries: 3, bytes: 99, recovered: true };
    assert_eq!(
        startup::root_line(root).as_str(),
        "[rootfs] initramfs=mounted entries=3 bytes=99 recovery=ok\n"
    );
}

#[test]
fn what_goes_wrong_is_told() {
    assert_eq!(
        startup::exception_line(0x9600_0045, 0x10, 0x8_0000).as_str(),
        "[exception] ESR=0x96000045 FAR=0x10 ELR=0x80000\n"
    );
    assert_eq!(
        startup::scheduler_failed_line("no threads").as_str(),
        "[sched] initialization failed: no threads\n"
    );
    let stats = HeapStats {
        size: 1024,
        used: 1000,
        peak: 1024,
        allocations: 3,
        oom_events: 2,
        self_test: true,
    };
    let mut in_progress = false;
    let layout = Layout { size: 64, align: 8 };
    let line = startup::handle_oom(&mut in_progress, layout, stats).unwrap();
    assert_eq!(
        line.as_str(),
        "\n[oom] kernel heap exhausted: request=64 align=8 used=1000/1024 peak=1024 events=2\n"
    );
    assert!(startup::handle_oom(&mut in_progress, layout, stats).is_none());
}

#[test]
fn the_scheduler_is_watched_until_it_has_shown_all() {
    let mut scheduler = SchedulerSummary {
        threads: 4,
        online_cpus: 2,
        context_switches: 9,
        migrations: 1,
        busiest_cpu_ticks: 20,
        kernel_heartbeat: 3,
        user_heartbeat: 2,
        user_syscalls: 5,
        process_cycles: 1,
        exec_cycles: 1,
        signal_deliveries: 1,
        futex_wakeups: 1,
        policy_updates: 3,
        ipc_deliveries: 2,
        ipc_rejections: 1,
        address_spaces_reclaimed: 2,
        task_table_entries: 4,
    };
    assert!(startup::scheduler_proven(scheduler));
    assert!(!startup::look_again(1, scheduler));
    let waiting = SchedulerSummary { user_syscalls: 0, ..scheduler };
    assert!(startup::look_again(1, waiting));
    assert!(!startup::look_again(startup::SCHEDULER_LOOKS, waiting));
    let line = startup::scheduler_line(scheduler);
    assert!(line.as_str().starts_with("[sched] preempt=ok threads=4 cpus=2 switches=9 "));
    assert!(line.as_str().ends_with("ptable=ok reclaim=ok\n"));
    scheduler.policy_updates = 2;
    assert!(!startup::scheduler_proven(scheduler));
    assert!(startup::scheduler_line(scheduler).as_str().contains(" policy=failed "));
}

fn be(words: &mut Vec<u8>, value: u32) {
    words.extend_from_slice(&value.to_be_bytes());
}

fn name(words: &mut Vec<u8>, text: &str) {
    be(words, 1);
    words.extend_from_slice(text.as_bytes());
    words.push(0);
    while words.len() % 4 != 0 {
        words.push(0);
    }
}

fn property(words: &mut Vec<u8>, offset: u32, value: &[u8]) {
    be(words, 3);
    be(words, value.len() as u32);
    be(words, offset);
    words.extend_from_slice(value);
    while words.len() % 4 != 0 {
        words.push(0);
    }
}

fn tree() -> Vec<u8> {
    // Offsets of the names: 0 #address-cells, 15 #size-cells, 27 reg, 31 compatible,
    // 42 device_type.
    let strings = b"#address-cells\0#size-cells\0reg\0compatible\0device_type\0";
    let mut body = Vec::new();
    name(&mut body, "");
    property(&mut body, 0, &2u32.to_be_bytes());
    property(&mut body, 15, &2u32.to_be_bytes());
    name(&mut body, "memory@40000000");
    property(&mut body, 42, b"memory\0");
    let mut reg = Vec::new();
    reg.extend_from_slice(&0x4000_0000u64.to_be_bytes());
    reg.extend_from_slice(&0x800_0000u64.to_be_bytes());
    property(&mut body, 27, &reg);
    be(&mut body, 2);
    name(&mut body, "intc@8000000");
    property(&mut body, 31, b"arm,cortex-a15-gic\0");
    let mut reg = Vec::new();
    for part in [0x800_0000u64, 0x1_0000, 0x801_0000, 0x1_0000] {
        reg.extend_from_slice(&part.to_be_bytes());
    }
    property(&mut body, 27, &reg);
    be(&mut body, 2);
    be(&mut body, 2);
    be(&mut body, 9);

    let reserve = 56;
    let structure = reserve + 16;
    let texts = structure + body.len();
    let total = texts + strings.len();
    let mut blob = Vec::new();
    for value in [
        0xd00d_feed,
        total as u32,
        structure as u32,
        texts as u32,
        reserve as u32,
        17,
        16,
        0,
        strings.len() as u32,
        body.len() as u32,
    ] {
        be(&mut blob, value);
    }
    blob.resize(structure, 0);
    blob.extend_from_slice(&body);
    blob.extend_from_slice(strings);
    blob
}

#[test]
fn device_trees_describe_memory_and_hardware() {
    let blob = tree();
    let memory = BootMemory { platform: Platform::X86_64, start: 0x10_0000, bytes: &blob };
    let map = firmware::parse_device_tree(&memory, 0x10_0000);
    assert_eq!(map.source(), MemorySource::DeviceTree);
    assert!(map.regions().iter().any(|region| {
        region.start == 0x4000_0000
            && region.end == 0x4800_0000
            && region.kind == MemoryRegionKind::Usable
    }));
    let found = device_tree::discover_hardware(&memory, 0x10_0000);
    assert!(found.valid);
    assert_eq!(found.gic_distributor_base, 0x800_0000);
    assert_eq!(found.gic_cpu_interface_base, 0x801_0000);
    let mut broken = tree();
    broken[0] = 0;
    let memory = BootMemory { platform: Platform::X86_64, start: 0x10_0000, bytes: &broken };
    assert!(!device_tree::discover_hardware(&memory, 0x10_0000).valid);
    assert_eq!(firmware::parse_device_tree(&memory, 0x10_0000).regions().len(), 0);
}

#[test]
fn memory_starts_without_a_heap() {
    let blob = tree();
    let platform = Platform::QemuVirt;
    let memory = BootMemory { platform, start: 0x10_0000, bytes: &blob };
    let mut state = FrameMemory {
        map: MemoryMap::new(platform, MemorySource::Unknown),
        frames: PhysicalFrames::new(),
    };
    let summary = mm::initialize_aarch64(
        &mut state,
        &memory,
        boot::PROTOCOL_DEVICE_TREE,
        0x10_0000,
        0,
        0x4008_0000,
        0x4010_0000,
        true,
        false,
    );
    assert_eq!(summary.source, MemorySource::DeviceTree);
    assert_eq!(summary.usable_bytes, state.map.usable_bytes());
    assert!(summary.allocator_self_test);
    assert!(summary.write_xor_execute);
    assert!(!summary.stack_guard);
    assert_eq!((summary.heap_bytes, summary.heap_self_test), (0, false));
    assert!(summary.free_frames > 0);
}

#[test]
fn loaders_describe_memory() {
    let mut blob = Vec::new();
    let entries: [(u64, u64, u32); 2] = [(0, 0x9_f000, 1), (0x10_0000, 0x70_0000, 1)];
    let tag = 16 + entries.len() * 24;
    let total = 8 + tag + 8;
    blob.extend_from_slice(&(total as u32).to_le_bytes());
    blob.extend_from_slice(&0u32.to_le_bytes());
    blob.extend_from_slice(&6u32.to_le_bytes());
    blob.extend_from_slice(&(tag as u32).to_le_bytes());
    blob.extend_from_slice(&24u32.to_le_bytes());
    blob.extend_from_slice(&0u32.to_le_bytes());
    for (start, length, kind) in entries {
        blob.extend_from_slice(&start.to_le_bytes());
        blob.extend_from_slice(&length.to_le_bytes());
        blob.extend_from_slice(&kind.to_le_bytes());
        blob.extend_from_slice(&0u32.to_le_bytes());
    }
    blob.extend_from_slice(&0u32.to_le_bytes());
    blob.extend_from_slice(&8u32.to_le_bytes());
    let memory = BootMemory { platform: Platform::X86_64, start: 0x2000, bytes: &blob };
    let map = firmware::parse_multiboot2(&memory, 0x2000);
    assert_eq!(map.source(), MemorySource::Multiboot2);
    assert_eq!(map.usable_bytes(), 0x9_f000 + 0x70_0000);
    let whole = boot::parse_memory_map(&memory, 0x36d7_6289, 0x2000);
    assert_eq!(whole.usable_bytes(), map.usable_bytes());
    let unknown = boot::parse_memory_map(&memory, 0x1234, 0x2000);
    assert_eq!(unknown.source(), MemorySource::Unknown);
}

use rustix_vkernel::arch::aarch64::hardware::{self, Readings, Registers, Wait};
use rustix_vkernel::arch::aarch64::platform::PlatformState;
use rustix_vkernel::arch::aarch64::rp1::{Probe, ProbeRead, Rp1Info};
use rustix_vkernel::arch::aarch64::timer::Timer;
use rustix_vkernel::arch::aarch64::{self, gic, OnlineCpus};
use rustix_vkernel::arch::per_cpu::PerCpuState;
use rustix_vkernel::arch::x86_64::runtime::{
    self, AcpiFindings, ClockFindings, InterruptFindings, SmpFindings,
};
use rustix_vkernel::arch::x86_64::{self, InputByte, Keyboard};
use rustix_vkernel::arch::{self, ClockTime, ConsoleInput, Platform};
use rustix_vkernel::boot::device_tree::HardwareDiscovery;
use rustix_vkernel::boot::memory_map::{MemoryMap, MemoryRegionKind, MemorySource};
use rustix_vkernel::mm::frame::{self, NumaRange, PhysicalFrames};

#[test]
fn platforms_say_what_they_are() {
    assert_eq!(arch::uname(Platform::X86_64), "Rustix v-kernel x86_64");
    assert_eq!(arch::arch_name(Platform::Rpi5), "aarch64-rpi5");
    assert!(arch::supports_ipc_trace(Platform::X86_64));
    assert!(!arch::supports_ipc_trace(Platform::QemuVirt));
    assert_eq!(arch::read_console_byte(Some(ConsoleInput::Byte(7))), Some(7));
    assert_eq!(arch::read_console_byte(Some(ConsoleInput::MouseByte(7))), None);
}

#[test]
fn locks_are_taken_in_order() {
    let mut state = PerCpuState::new();
    assert!(state.push_lock_rank(10));
    assert!(!state.lock_order_allows(10));
    assert!(!state.push_lock_rank(5));
    assert!(state.push_lock_rank(20));
    assert!(!state.pop_lock_rank(10));
    assert!(state.pop_lock_rank(20));
    assert!(state.lock_order_allows(11));
    state.irq_disabled_enter();
    state.irq_disabled_enter();
    assert_eq!(state.irq_disable_depth(), 2);
    assert!(state.irq_disabled_exit());
}

#[test]
fn keys_have_letters() {
    assert_eq!(x86_64::scancode_to_ascii(0x1e, false), Some(b'a'));
    assert_eq!(x86_64::scancode_to_ascii(0x1e, true), Some(b'A'));
    assert_eq!(x86_64::scancode_to_ascii(0x7f, false), None);
    let mut keyboard = Keyboard { shift: false, extended: false };
    let shift = Some(InputByte { is_mouse: false, value: 0x2a });
    let _ = keyboard.poll_console_input(None, shift);
    assert!(keyboard.shift);
    assert_eq!(
        keyboard.poll_console_input(None, Some(InputByte { is_mouse: false, value: 0x1e })),
        Some(ConsoleInput::Key { code: 0x1e, translated: Some(b'A') })
    );
    assert_eq!(
        keyboard.poll_console_input(Some(b'x'), None),
        Some(ConsoleInput::Byte(b'x'))
    );
    assert_eq!(
        keyboard.poll_console_input(None, Some(InputByte { is_mouse: true, value: 9 })),
        Some(ConsoleInput::MouseByte(9))
    );
}

#[test]
fn the_clock_is_read_twice() {
    let time = x86_64::rtc_snapshot(0x59, 0x30, 0x23, 2);
    assert_eq!(time, Some(ClockTime { hour: 23, minute: 30, second: 59 }));
    assert_eq!(x86_64::read_clock_time(time, time), time);
    let other = x86_64::rtc_snapshot(0x00, 0x31, 0x23, 2);
    assert_eq!(x86_64::read_clock_time(time, other), other);
    assert_eq!(x86_64::read_clock_time(None, other), None);
    assert_eq!(x86_64::rtc_decode_value(0x45, false), 45);
    assert_eq!(x86_64::rtc_decode_value(45, true), 45);
}

#[test]
fn tones_have_divisors() {
    assert_eq!(x86_64::speaker_play(440), Some(2711));
    assert_eq!(x86_64::speaker_play(0), None);
}

#[test]
fn a_timer_is_seen_after_two_ticks() {
    assert!(!x86_64::timer_interrupt_seen(100, 5, 6));
    assert!(x86_64::timer_interrupt_seen(100, 5, 7));
    assert!(x86_64::timer_interrupt_seen(100, u64::MAX, 1));
    assert!(x86_64::timer_interrupt_seen(0, 5, 5));
}

#[test]
fn the_second_part_of_the_start_is_summed_up() {
    let mut frames = Box::new(PhysicalFrames::new());
    let mut map = MemoryMap::new(Platform::X86_64, MemorySource::Multiboot2);
    assert!(map.push(0, 0x80_0000, MemoryRegionKind::Usable));
    map.normalize();
    let _ = frame::initialize(&mut frames, &map, 0x10_0000, 0x20_0000);
    let ranges = [
        NumaRange { node: 0, start: 0, end: 0x40_0000 },
        NumaRange { node: 1, start: 0x40_0000, end: 0x80_0000 },
    ];
    runtime::adopt_topology(&mut frames, &ranges);
    assert_eq!(frame::stats(&frames).numa_nodes, 2);
    runtime::adopt_topology(&mut frames, &[]);
    assert_eq!(frame::stats(&frames).numa_nodes, 2);
    let summary = runtime::initialize_runtime(
        AcpiFindings { revision: 2, used_xsdt: true },
        InterruptFindings {
            idt: true,
            syscall: true,
            exception_guard: true,
            local_apic: true,
            ioapic: false,
            apic_id: 3,
            ioapic_redirections: 24,
        },
        ClockFindings {
            source: "TSC",
            invariant_tsc: true,
            tsc_hz: 3_000_000_000,
            hpet_hz: 0,
            apic_hz: 1_000_000,
            timer_hz: 100,
        },
        SmpFindings { discovered: 4, attempted: 3, online: 2, per_cpu: true },
        true,
        false,
    );
    assert_eq!((summary.acpi_revision, summary.apic_id, summary.cpus_online), (2, 3, 2));
    assert_eq!((summary.clock_source, summary.apic_timer_hz), ("TSC", 1_000_000));
    assert!(summary.timer_irq && !summary.irq_lock && !summary.ioapic);
}

#[test]
fn boards_are_known() {
    let board = aarch64::rpi5();
    assert!(!aarch64::init_uart(&board).is_empty() || !board.uart_requires_init);
    assert_eq!(aarch64::console_write("a\nb"), b"a\r\nb".to_vec());
    assert_eq!(aarch64::counter_ns(1, 5, 1), Some(0x1_0000_0005 * 1000));
    assert_eq!(aarch64::counter_ns(1, 5, 2), None);
    assert_eq!(aarch64::monotonic_time_ns(Some(5), 0, 0), 5);
    assert_eq!(aarch64::monotonic_time_ns(None, 62_500_000, 62_500_000), 1_000_000_000);
    let mut online = OnlineCpus::first();
    assert_eq!(online.online_cpu_count(), 1);
    online.started(2);
    assert_eq!(online.online_cpu_count(), 2);
    assert!(!online.must_start(2));
    assert!(online.must_start(3));
}

#[test]
fn nothing_is_known_without_a_device_tree() {
    let board = aarch64::rpi5();
    let mut state = PlatformState::new();
    assert_eq!(state.gic_distributor_base(&board), board.gic_distributor_base);
    assert_eq!(state.pcie_controller_base(), None);
    let mut discovery = HardwareDiscovery::empty();
    discovery.valid = true;
    discovery.gic_distributor_base = 0x800_0000;
    discovery.gic_cpu_interface_base = 0x801_0000;
    discovery.pcie_controller_base = 0x1000_0000;
    state.configure(&discovery);
    assert!(state.discovered());
    assert_eq!(state.gic_distributor_base(&board), 0x800_0000);
    assert_eq!(state.pcie_controller_base(), Some(0x1000_0000));
}

#[test]
fn interrupts_are_counted_and_ended() {
    let (info, steps) = gic::init_primary(3, false);
    assert_eq!(info.interrupt_lines, 128);
    assert!(!steps.is_empty());
    assert!(gic::interrupt_enabled(33, 0b10));
    assert!(!gic::interrupt_enabled(33, 0b01));
    assert_eq!(gic::acknowledge(30, 0), Some(30));
    assert_eq!(gic::acknowledge(1023, 1023), None);
}

#[test]
fn the_peripherals_are_searched_for() {
    let mut probe = Probe::new(0x1_0000);
    let mut read = probe.probe(0);
    assert_eq!(read, ProbeRead::Status);
    let mut looks = 0;
    while read != ProbeRead::Finished {
        read = probe.probe(0xffff_ffff);
        looks += 1;
        assert!(looks < 100_000);
    }
    assert!(!probe.info().found);
    assert_eq!(probe.info().controller, 0x1_0000);
}

fn readings(now_ns: u64, ticks: u64, per_cpu: [u64; 4], tlb_ipis: usize) -> Readings {
    Readings { now_ns, timer: Timer { ticks, interval: 1, per_cpu }, cpus_online: 2, tlb_ipis }
}

#[test]
fn other_processors_come_in_by_themselves() {
    assert!(hardware::await_secondaries(true, 3, 0, 99_999_999));
    assert!(!hardware::await_secondaries(true, 3, 0, 100_000_000));
    assert!(!hardware::await_secondaries(true, 4, 0, 0));
    assert!(!hardware::await_secondaries(false, 1, 0, 0));
}

#[test]
fn processors_are_waited_for() {
    let mut wait = Wait::FirstTick { since: 0 };
    wait = hardware::hardware_step(wait, &readings(1_000, 0, [0; 4], 7));
    assert_eq!(wait, Wait::FirstTick { since: 0 });
    wait = hardware::hardware_step(wait, &readings(2_000, 1, [1, 0, 0, 0], 7));
    assert_eq!(wait, Wait::SendIpi { previous: 7 });
    wait = hardware::hardware_step(wait, &readings(3_000, 1, [1, 0, 0, 0], 7));
    assert_eq!(wait, Wait::Ipis { since: 3_000, previous: 7 });
    wait = hardware::hardware_step(wait, &readings(4_000, 1, [1, 0, 0, 0], 7));
    assert_eq!(wait, Wait::Ipis { since: 3_000, previous: 7 });
    wait = hardware::hardware_step(wait, &readings(5_000, 1, [1, 0, 0, 0], 8));
    assert_eq!(wait, Wait::CpuTicks { since: 5_000, previous: 7 });
    let last = readings(50_005_000, 1, [1, 0, 0, 0], 8);
    wait = hardware::hardware_step(wait, &last);
    assert_eq!(wait, Wait::Nothing { previous: 7 });
    let registers = Registers {
        system_control: 1,
        interrupt_mask: 0x80,
        gic_interrupt_lines: 128,
        timer: true,
        timer_control: 5,
        timer_irq_enabled: true,
        irq_lock: true,
        gic_state: gic::state(1, 2, 3, 4, 5),
        rp1: Rp1Info {
            controller: 0,
            link_up: false,
            found: false,
            vendor: 0,
            device: 0,
            bus: 0,
            slot: 0,
            function: 0,
            bar0: 0,
        },
    };
    let info = hardware::hardware_info(registers, &last, 7);
    assert!(info.mmu && info.irq_masked && info.tlb_ipi && !info.per_cpu_timer);
    assert_eq!((info.cpus_online, info.timer_ticks), (2, 1));
}

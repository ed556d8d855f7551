//! What the kernel says of the machine and of itself while it starts.
use crate::arch::aarch64::gic::GicState;
use crate::arch::aarch64::hardware::Aarch64HardwareInfo;
use crate::arch::aarch64::rp1::Rp1Info;
use crate::arch::x86_64::runtime::HardwareSummary;
use crate::boot::memory_map;
use crate::fixed;
use crate::initramfs::RootMountSummary;
use crate::lines;
use crate::lines::Line;
use crate::mm::heap::{HeapStats, Layout};
use crate::mm::MemorySummary;
use crate::print;
use crate::print::Buffer;
use crate::screen::video;
use crate::screen::video::VideoMode;
use crate::text;
use vstd::prelude::*;

verus! {

/// What the disks turn out to be.
#[derive(Clone, Copy, Debug, PartialEq, Eq, Structural)]
pub struct StorageSummary {
    pub ata_present: bool,
    pub ahci_present: bool,
    pub nvme_present: bool,
    pub async_queue_depth: usize,
    pub block_self_test: bool,
    pub async_self_test: bool,
    pub ext_self_test: bool,
}

/// What the scheduler has done so far.
#[derive(Clone, Copy, Debug, PartialEq, Eq, Structural)]
pub struct SchedulerSummary {
    pub threads: usize,
    pub online_cpus: usize,
    pub context_switches: u64,
    pub migrations: u64,
    pub busiest_cpu_ticks: u64,
    pub kernel_heartbeat: u64,
    pub user_heartbeat: u64,
    pub user_syscalls: u64,
    pub process_cycles: u64,
    pub exec_cycles: u64,
    pub signal_deliveries: u64,
    pub futex_wakeups: u64,
    pub policy_updates: u64,
    pub ipc_deliveries: u64,
    pub ipc_rejections: u64,
    pub address_spaces_reclaimed: u64,
    pub task_table_entries: usize,
}

/// How often the scheduler is looked at before its state is taken as it is.
pub const SCHEDULER_LOOKS: usize = 100_000_000;

/// Whether the scheduler has shown all that it can do.
pub open spec fn proven(scheduler: SchedulerSummary) -> bool {
    &&& scheduler.context_switches >= 9
    &&& scheduler.kernel_heartbeat != 0
    &&& scheduler.user_heartbeat != 0
    &&& scheduler.user_syscalls != 0
    &&& scheduler.process_cycles != 0
    &&& scheduler.exec_cycles != 0
    &&& scheduler.signal_deliveries != 0
    &&& scheduler.futex_wakeups != 0
    &&& scheduler.policy_updates >= 3
    &&& scheduler.ipc_deliveries >= 2
    &&& scheduler.ipc_rejections != 0
    &&& scheduler.address_spaces_reclaimed >= 2
    &&& scheduler.task_table_entries == scheduler.threads
}

/// Whether the scheduler has shown all that it can do.
pub fn scheduler_proven(scheduler: SchedulerSummary) -> (done: bool)
    ensures
        done == proven(scheduler),
{
    scheduler.context_switches >= 9 && scheduler.kernel_heartbeat != 0
        && scheduler.user_heartbeat != 0 && scheduler.user_syscalls != 0
        && scheduler.process_cycles != 0 && scheduler.exec_cycles != 0
        && scheduler.signal_deliveries != 0 && scheduler.futex_wakeups != 0
        && scheduler.policy_updates >= 3 && scheduler.ipc_deliveries >= 2
        && scheduler.ipc_rejections != 0 && scheduler.address_spaces_reclaimed >= 2
        && scheduler.task_table_entries == scheduler.threads
}

/// Whether the scheduler is looked at once more, after so many looks of which this was the
/// last.
pub fn look_again(looks: usize, scheduler: SchedulerSummary) -> (again: bool)
    ensures
        again == (looks < SCHEDULER_LOOKS && !proven(scheduler)),
{
    looks < SCHEDULER_LOOKS && !scheduler_proven(scheduler)
}

/// One of two words.
pub open spec fn word(first: bool, yes: &'static str, no: &'static str) -> &'static str {
    if first {
        yes
    } else {
        no
    }
}

/// One of two words.
fn choice(first: bool, yes: &'static str, no: &'static str) -> (chosen: &'static str)
    ensures
        chosen == word(first, yes, no),
{
    if first {
        yes
    } else {
        no
    }
}

/// The pieces of the line on: how the kernel was started.
#[verifier::opaque]
pub open spec fn boot_pieces(protocol: u64, information: u64) -> Seq<Seq<u8>> {
    lines::none().push(
        text::literal("[boot] protocol=0x"),
    ).push(
        fixed::hexadecimal(protocol as nat),
    ).push(
        text::literal(" information=0x"),
    ).push(
        fixed::hexadecimal(information as nat),
    )
}

/// How the kernel was started.
pub fn boot_line(protocol: u64, information: u64) -> (line: Buffer)
    ensures
        line@ == print::line_of(boot_pieces(protocol, information)),
{
    reveal(boot_pieces);
    print::println(
        Line::new()
        .text("[boot] protocol=0x")
        .hexadecimal(protocol as u64)
        .text(" information=0x")
        .hexadecimal(information as u64),
    )
}

/// The pieces of the line on: the display.
#[verifier::opaque]
pub open spec fn video_pieces(mode: VideoMode, graphics: bool) -> Seq<Seq<u8>> {
    lines::none().push(
        text::literal("[video] source="),
    ).push(
        text::literal(video::source_name(mode.source)),
    ).push(
        text::literal(" mode="),
    ).push(
        fixed::decimal(mode.width as nat),
    ).push(
        text::literal("x"),
    ).push(
        fixed::decimal(mode.height as nat),
    ).push(
        text::literal("x"),
    ).push(
        fixed::decimal(mode.bpp as nat),
    ).push(
        text::literal(" graphics="),
    ).push(
        text::literal(word(graphics, "on", "off")),
    )
}

/// The display.
pub fn video_line(mode: VideoMode, graphics: bool) -> (line: Buffer)
    ensures
        line@ == print::line_of(video_pieces(mode, graphics)),
{
    reveal(video_pieces);
    print::println(
        Line::new()
        .text("[video] source=")
        .text(video::video_source(mode))
        .text(" mode=")
        .number(mode.width as u64)
        .text("x")
        .number(mode.height as u64)
        .text("x")
        .number(mode.bpp as u64)
        .text(" graphics=")
        .text(choice(graphics, "on", "off")),
    )
}

/// The pieces of the line on: the fast loops.
#[verifier::opaque]
pub open spec fn fastpath_pieces(passed: bool) -> Seq<Seq<u8>> {
    lines::none().push(
        text::literal("[c-fastpath] ABI/self-test="),
    ).push(
        text::literal(word(passed, "ok", "failed")),
    )
}

/// The fast loops.
pub fn fastpath_line(passed: bool) -> (line: Buffer)
    ensures
        line@ == print::line_of(fastpath_pieces(passed)),
{
    reveal(fastpath_pieces);
    print::println(
        Line::new()
        .text("[c-fastpath] ABI/self-test=")
        .text(choice(passed, "ok", "failed")),
    )
}

/// The pieces of the line on: the memory.
#[verifier::opaque]
pub open spec fn memory_pieces(memory: MemorySummary) -> Seq<Seq<u8>> {
    lines::none().push(
        text::literal("[mm] source="),
    ).push(
        text::literal(memory_map::source_name(memory.source)),
    ).push(
        text::literal(" regions="),
    ).push(
        fixed::decimal(memory.regions as nat),
    ).push(
        text::literal(" usable="),
    ).push(
        fixed::decimal((memory.usable_bytes / 1024) as nat),
    ).push(
        text::literal(" KiB free_frames="),
    ).push(
        fixed::decimal(memory.free_frames as nat),
    ).push(
        text::literal(" numa="),
    ).push(
        fixed::decimal(memory.numa_nodes as nat),
    ).push(
        text::literal("/local:"),
    ).push(
        fixed::decimal(memory.numa_local_allocations as nat),
    ).push(
        text::literal("/fallback:"),
    ).push(
        fixed::decimal(memory.numa_fallback_allocations as nat),
    ).push(
        text::literal(" bitmap="),
    ).push(
        text::literal(word(memory.allocator_self_test, "ok", "failed")),
    ).push(
        text::literal(" high="),
    ).push(
        text::literal(word(memory.high_half, "ok", "failed")),
    ).push(
        text::literal(" split="),
    ).push(
        text::literal(word(memory.user_isolation, "ok", "failed")),
    ).push(
        text::literal(" ucopy="),
    ).push(
        text::literal(word(memory.user_copy, "ok", "failed")),
    ).push(
        text::literal(" uguard="),
    ).push(
        text::literal(word(memory.user_guard, "ok", "failed")),
    ).push(
        text::literal(" W^X="),
    ).push(
        text::literal(word(memory.write_xor_execute, "ok", "failed")),
    ).push(
        text::literal(" kguard="),
    ).push(
        text::literal(word(memory.stack_guard, "ok", "failed")),
    ).push(
        text::literal(" heap="),
    ).push(
        fixed::decimal((memory.heap_bytes / 1024) as nat),
    ).push(
        text::literal(" KiB/"),
    ).push(
        text::literal(word(memory.heap_self_test, "ok", "failed")),
    ).push(
        text::literal(" SMEP="),
    ).push(
        text::literal(word(memory.smep, "on", "n/a")),
    ).push(
        text::literal(" SMAP="),
    ).push(
        text::literal(word(memory.smap, "on", "n/a")),
    )
}

/// The memory.
pub fn memory_line(memory: MemorySummary) -> (line: Buffer)
    ensures
        line@ == print::line_of(memory_pieces(memory)),
{
    reveal(memory_pieces);
    print::println(
        Line::new()
        .text("[mm] source=")
        .text(memory.source.name())
        .text(" regions=")
        .number(memory.regions as u64)
        .text(" usable=")
        .number(memory.usable_bytes / 1024)
        .text(" KiB free_frames=")
        .number(memory.free_frames as u64)
        .text(" numa=")
        .number(memory.numa_nodes as u64)
        .text("/local:")
        .number(memory.numa_local_allocations as u64)
        .text("/fallback:")
        .number(memory.numa_fallback_allocations as u64)
        .text(" bitmap=")
        .text(choice(memory.allocator_self_test, "ok", "failed"))
        .text(" high=")
        .text(choice(memory.high_half, "ok", "failed"))
        .text(" split=")
        .text(choice(memory.user_isolation, "ok", "failed"))
        .text(" ucopy=")
        .text(choice(memory.user_copy, "ok", "failed"))
        .text(" uguard=")
        .text(choice(memory.user_guard, "ok", "failed"))
        .text(" W^X=")
        .text(choice(memory.write_xor_execute, "ok", "failed"))
        .text(" kguard=")
        .text(choice(memory.stack_guard, "ok", "failed"))
        .text(" heap=")
        .number(memory.heap_bytes / 1024)
        .text(" KiB/")
        .text(choice(memory.heap_self_test, "ok", "failed"))
        .text(" SMEP=")
        .text(choice(memory.smep, "on", "n/a"))
        .text(" SMAP=")
        .text(choice(memory.smap, "on", "n/a")),
    )
}

/// The pieces of the line on: the processors and their timer.
#[verifier::opaque]
pub open spec fn arm_pieces(hardware: Aarch64HardwareInfo) -> Seq<Seq<u8>> {
    lines::none().push(
        text::literal("[arm64] MMU="),
    ).push(
        text::literal(word(hardware.mmu, "on", "off")),
    ).push(
        text::literal(" GICv2="),
    ).push(
        text::literal(word(hardware.gic_interrupt_lines != 0, "on", "off")),
    ).push(
        text::literal(" IRQs="),
    ).push(
        fixed::decimal(hardware.gic_interrupt_lines as nat),
    ).push(
        text::literal(" timer="),
    ).push(
        text::literal(word(hardware.timer, "on", "off")),
    ).push(
        text::literal(" ctl=0x"),
    ).push(
        fixed::hexadecimal(hardware.timer_control as nat),
    ).push(
        text::literal(" ppi="),
    ).push(
        text::literal(word(hardware.timer_irq_enabled, "on", "off")),
    ).push(
        text::literal(" masked="),
    ).push(
        text::literal(word(hardware.irq_masked, "yes", "no")),
    ).push(
        text::literal(" ticks="),
    ).push(
        fixed::decimal(hardware.timer_ticks as nat),
    ).push(
        text::literal(" CPUs="),
    ).push(
        fixed::decimal(hardware.cpus_online as nat),
    ).push(
        text::literal(" per-cpu-timer="),
    ).push(
        text::literal(word(hardware.per_cpu_timer, "ok", "failed")),
    ).push(
        text::literal(" IPI="),
    ).push(
        text::literal(word(hardware.tlb_ipi, "ok", "failed")),
    ).push(
        text::literal(" irq-lock="),
    ).push(
        text::literal(word(hardware.irq_lock, "ok", "failed")),
    )
}

/// The processors and their timer.
pub fn arm_line(hardware: Aarch64HardwareInfo) -> (line: Buffer)
    ensures
        line@ == print::line_of(arm_pieces(hardware)),
{
    reveal(arm_pieces);
    print::println(
        Line::new()
        .text("[arm64] MMU=")
        .text(choice(hardware.mmu, "on", "off"))
        .text(" GICv2=")
        .text(choice(hardware.gic_interrupt_lines != 0, "on", "off"))
        .text(" IRQs=")
        .number(hardware.gic_interrupt_lines as u64)
        .text(" timer=")
        .text(choice(hardware.timer, "on", "off"))
        .text(" ctl=0x")
        .hexadecimal(hardware.timer_control as u64)
        .text(" ppi=")
        .text(choice(hardware.timer_irq_enabled, "on", "off"))
        .text(" masked=")
        .text(choice(hardware.irq_masked, "yes", "no"))
        .text(" ticks=")
        .number(hardware.timer_ticks as u64)
        .text(" CPUs=")
        .number(hardware.cpus_online as u64)
        .text(" per-cpu-timer=")
        .text(choice(hardware.per_cpu_timer, "ok", "failed"))
        .text(" IPI=")
        .text(choice(hardware.tlb_ipi, "ok", "failed"))
        .text(" irq-lock=")
        .text(choice(hardware.irq_lock, "ok", "failed")),
    )
}

/// The pieces of the line on: the controller of the peripherals.
#[verifier::opaque]
pub open spec fn rp1_pieces(rp1: Rp1Info) -> Seq<Seq<u8>> {
    lines::none().push(
        text::literal("[rp1] pcie=0x"),
    ).push(
        fixed::hexadecimal(rp1.controller as nat),
    ).push(
        text::literal(" link="),
    ).push(
        text::literal(word(rp1.link_up, "up", "down")),
    ).push(
        text::literal(" device="),
    ).push(
        lines::padded_digits(rp1.vendor as nat, 4),
    ).push(
        text::literal(":"),
    ).push(
        lines::padded_digits(rp1.device as nat, 4),
    ).push(
        text::literal(" bdf="),
    ).push(
        lines::padded_digits(rp1.bus as nat, 2),
    ).push(
        text::literal(":"),
    ).push(
        lines::padded_digits(rp1.slot as nat, 2),
    ).push(
        text::literal("."),
    ).push(
        fixed::decimal(rp1.function as nat),
    ).push(
        text::literal(" bar0=0x"),
    ).push(
        fixed::hexadecimal(rp1.bar0 as nat),
    )
}

/// The controller of the peripherals.
pub fn rp1_line(rp1: Rp1Info) -> (line: Buffer)
    ensures
        line@ == print::line_of(rp1_pieces(rp1)),
{
    reveal(rp1_pieces);
    print::println(
        Line::new()
        .text("[rp1] pcie=0x")
        .hexadecimal(rp1.controller as u64)
        .text(" link=")
        .text(choice(rp1.link_up, "up", "down"))
        .text(" device=")
        .padded(rp1.vendor as u64, 4)
        .text(":")
        .padded(rp1.device as u64, 4)
        .text(" bdf=")
        .padded(rp1.bus as u64, 2)
        .text(":")
        .padded(rp1.slot as u64, 2)
        .text(".")
        .number(rp1.function as u64)
        .text(" bar0=0x")
        .hexadecimal(rp1.bar0 as u64),
    )
}

/// The pieces of the line on: the controller of the interrupts.
#[verifier::opaque]
pub open spec fn gic_pieces(state: GicState) -> Seq<Seq<u8>> {
    lines::none().push(
        text::literal("[gic] dist=0x"),
    ).push(
        fixed::hexadecimal(state.distributor_control as nat),
    ).push(
        text::literal(" cpu=0x"),
    ).push(
        fixed::hexadecimal(state.cpu_control as nat),
    ).push(
        text::literal(" group=0x"),
    ).push(
        fixed::hexadecimal(state.group as nat),
    ).push(
        text::literal(" pending=0x"),
    ).push(
        fixed::hexadecimal(state.pending as nat),
    ).push(
        text::literal(" highest="),
    ).push(
        fixed::decimal((state.highest_pending & 0x3ff) as nat),
    )
}

/// The controller of the interrupts.
pub fn gic_line(state: GicState) -> (line: Buffer)
    ensures
        line@ == print::line_of(gic_pieces(state)),
{
    reveal(gic_pieces);
    print::println(
        Line::new()
        .text("[gic] dist=0x")
        .hexadecimal(state.distributor_control as u64)
        .text(" cpu=0x")
        .hexadecimal(state.cpu_control as u64)
        .text(" group=0x")
        .hexadecimal(state.group as u64)
        .text(" pending=0x")
        .hexadecimal(state.pending as u64)
        .text(" highest=")
        .number((state.highest_pending & 0x3ff) as u64),
    )
}

/// The pieces of the line on: the interrupts.
#[verifier::opaque]
pub open spec fn irq_pieces(hardware: HardwareSummary) -> Seq<Seq<u8>> {
    lines::none().push(
        text::literal("[irq] IDT="),
    ).push(
        text::literal(word(hardware.idt, "ok", "failed")),
    ).push(
        text::literal(" syscall/sysret="),
    ).push(
        text::literal(word(hardware.syscall, "ok", "failed")),
    ).push(
        text::literal(" IST-guard="),
    ).push(
        text::literal(word(hardware.exception_guard, "ok", "failed")),
    ).push(
        text::literal(" LAPIC="),
    ).push(
        text::literal(word(hardware.local_apic, "ok", "failed")),
    ).push(
        text::literal(" id="),
    ).push(
        fixed::decimal(hardware.apic_id as nat),
    ).push(
        text::literal(" IOAPIC="),
    ).push(
        text::literal(word(hardware.ioapic, "ok", "n/a")),
    ).push(
        text::literal(" routes="),
    ).push(
        fixed::decimal(hardware.ioapic_redirections as nat),
    ).push(
        text::literal(" timer-irq="),
    ).push(
        text::literal(word(hardware.timer_irq, "ok", "failed")),
    )
}

/// The interrupts.
pub fn irq_line(hardware: HardwareSummary) -> (line: Buffer)
    ensures
        line@ == print::line_of(irq_pieces(hardware)),
{
    reveal(irq_pieces);
    print::println(
        Line::new()
        .text("[irq] IDT=")
        .text(choice(hardware.idt, "ok", "failed"))
        .text(" syscall/sysret=")
        .text(choice(hardware.syscall, "ok", "failed"))
        .text(" IST-guard=")
        .text(choice(hardware.exception_guard, "ok", "failed"))
        .text(" LAPIC=")
        .text(choice(hardware.local_apic, "ok", "failed"))
        .text(" id=")
        .number(hardware.apic_id as u64)
        .text(" IOAPIC=")
        .text(choice(hardware.ioapic, "ok", "n/a"))
        .text(" routes=")
        .number(hardware.ioapic_redirections as u64)
        .text(" timer-irq=")
        .text(choice(hardware.timer_irq, "ok", "failed")),
    )
}

/// The pieces of the line on: the clock.
#[verifier::opaque]
pub open spec fn clock_pieces(hardware: HardwareSummary, now_ns: u64) -> Seq<Seq<u8>> {
    lines::none().push(
        text::literal("[clock] source="),
    ).push(
        text::literal(hardware.clock_source),
    ).push(
        text::literal(" invariant-tsc="),
    ).push(
        text::literal(word(hardware.invariant_tsc, "yes", "no")),
    ).push(
        text::literal(" TSC="),
    ).push(
        fixed::decimal((hardware.tsc_hz / 1000) as nat),
    ).push(
        text::literal(" kHz HPET="),
    ).push(
        fixed::decimal((hardware.hpet_hz / 1000) as nat),
    ).push(
        text::literal(" kHz APIC="),
    ).push(
        fixed::decimal((hardware.apic_timer_hz / 1000) as nat),
    ).push(
        text::literal(" kHz tick="),
    ).push(
        fixed::decimal(hardware.timer_hz as nat),
    ).push(
        text::literal(" Hz now="),
    ).push(
        fixed::decimal(now_ns as nat),
    ).push(
        text::literal(" ns"),
    )
}

/// The clock.
pub fn clock_line(hardware: HardwareSummary, now_ns: u64) -> (line: Buffer)
    ensures
        line@ == print::line_of(clock_pieces(hardware, now_ns)),
{
    reveal(clock_pieces);
    print::println(
        Line::new()
        .text("[clock] source=")
        .text(hardware.clock_source)
        .text(" invariant-tsc=")
        .text(choice(hardware.invariant_tsc, "yes", "no"))
        .text(" TSC=")
        .number(hardware.tsc_hz / 1000)
        .text(" kHz HPET=")
        .number(hardware.hpet_hz / 1000)
        .text(" kHz APIC=")
        .number(hardware.apic_timer_hz / 1000)
        .text(" kHz tick=")
        .number(hardware.timer_hz as u64)
        .text(" Hz now=")
        .number(now_ns as u64)
        .text(" ns"),
    )
}

/// The pieces of the line on: the firmware and the processors.
#[verifier::opaque]
pub open spec fn smp_pieces(hardware: HardwareSummary) -> Seq<Seq<u8>> {
    lines::none().push(
        text::literal("[acpi/smp] ACPI="),
    ).push(
        fixed::decimal(hardware.acpi_revision as nat),
    ).push(
        text::literal(" root="),
    ).push(
        text::literal(word(hardware.acpi_xsdt, "XSDT", "RSDT")),
    ).push(
        text::literal(" CPUs="),
    ).push(
        fixed::decimal(hardware.cpus_online as nat),
    ).push(
        text::literal("/"),
    ).push(
        fixed::decimal(hardware.cpus_discovered as nat),
    ).push(
        text::literal(" attempted="),
    ).push(
        fixed::decimal(hardware.cpus_attempted as nat),
    ).push(
        text::literal(" per-cpu="),
    ).push(
        text::literal(word(hardware.per_cpu, "ok", "failed")),
    ).push(
        text::literal(" irq-lock="),
    ).push(
        text::literal(word(hardware.irq_lock, "ok", "failed")),
    )
}

/// The firmware and the processors.
pub fn smp_line(hardware: HardwareSummary) -> (line: Buffer)
    ensures
        line@ == print::line_of(smp_pieces(hardware)),
{
    reveal(smp_pieces);
    print::println(
        Line::new()
        .text("[acpi/smp] ACPI=")
        .number(hardware.acpi_revision as u64)
        .text(" root=")
        .text(choice(hardware.acpi_xsdt, "XSDT", "RSDT"))
        .text(" CPUs=")
        .number(hardware.cpus_online as u64)
        .text("/")
        .number(hardware.cpus_discovered as u64)
        .text(" attempted=")
        .number(hardware.cpus_attempted as u64)
        .text(" per-cpu=")
        .text(choice(hardware.per_cpu, "ok", "failed"))
        .text(" irq-lock=")
        .text(choice(hardware.irq_lock, "ok", "failed")),
    )
}

/// The pieces of the line on: the scheduler.
#[verifier::opaque]
pub open spec fn scheduler_pieces(scheduler: SchedulerSummary) -> Seq<Seq<u8>> {
    lines::none().push(
        text::literal("[sched] preempt="),
    ).push(
        text::literal(word((scheduler.context_switches >= 9 && scheduler.kernel_heartbeat != 0), "ok", "failed")),
    ).push(
        text::literal(" threads="),
    ).push(
        fixed::decimal(scheduler.threads as nat),
    ).push(
        text::literal(" cpus="),
    ).push(
        fixed::decimal(scheduler.online_cpus as nat),
    ).push(
        text::literal(" switches="),
    ).push(
        fixed::decimal(scheduler.context_switches as nat),
    ).push(
        text::literal(" migrations="),
    ).push(
        fixed::decimal(scheduler.migrations as nat),
    ).push(
        text::literal(" busiest="),
    ).push(
        fixed::decimal(scheduler.busiest_cpu_ticks as nat),
    ).push(
        text::literal(" kthread="),
    ).push(
        fixed::decimal(scheduler.kernel_heartbeat as nat),
    ).push(
        text::literal(" ring3="),
    ).push(
        text::literal(word(scheduler.user_heartbeat != 0, "ok", "failed")),
    ).push(
        text::literal(" user="),
    ).push(
        fixed::decimal(scheduler.user_heartbeat as nat),
    ).push(
        text::literal(" syscall="),
    ).push(
        text::literal(word(scheduler.user_syscalls != 0, "ok", "failed")),
    ).push(
        text::literal(" fork-wait="),
    ).push(
        text::literal(word(scheduler.process_cycles != 0, "ok", "failed")),
    ).push(
        text::literal(" exec="),
    ).push(
        text::literal(word(scheduler.exec_cycles != 0, "ok", "failed")),
    ).push(
        text::literal(" signal="),
    ).push(
        text::literal(word(scheduler.signal_deliveries != 0, "ok", "failed")),
    ).push(
        text::literal(" futex="),
    ).push(
        text::literal(word(scheduler.futex_wakeups != 0, "ok", "failed")),
    ).push(
        text::literal(" policy="),
    ).push(
        text::literal(word(scheduler.policy_updates >= 3, "ok", "failed")),
    ).push(
        text::literal(" ipc-user="),
    ).push(
        text::literal(word(scheduler.ipc_deliveries >= 2, "ok", "failed")),
    ).push(
        text::literal(" ipc-deny="),
    ).push(
        text::literal(word(scheduler.ipc_rejections != 0, "ok", "failed")),
    ).push(
        text::literal(" ptable="),
    ).push(
        text::literal(word(scheduler.task_table_entries == scheduler.threads, "ok", "failed")),
    ).push(
        text::literal(" reclaim="),
    ).push(
        text::literal(word(scheduler.address_spaces_reclaimed >= 2, "ok", "failed")),
    )
}

/// The scheduler.
pub fn scheduler_line(scheduler: SchedulerSummary) -> (line: Buffer)
    ensures
        line@ == print::line_of(scheduler_pieces(scheduler)),
{
    reveal(scheduler_pieces);
    print::println(
        Line::new()
        .text("[sched] preempt=")
        .text(choice((scheduler.context_switches >= 9 && scheduler.kernel_heartbeat != 0), "ok", "failed"))
        .text(" threads=")
        .number(scheduler.threads as u64)
        .text(" cpus=")
        .number(scheduler.online_cpus as u64)
        .text(" switches=")
        .number(scheduler.context_switches as u64)
        .text(" migrations=")
        .number(scheduler.migrations as u64)
        .text(" busiest=")
        .number(scheduler.busiest_cpu_ticks as u64)
        .text(" kthread=")
        .number(scheduler.kernel_heartbeat as u64)
        .text(" ring3=")
        .text(choice(scheduler.user_heartbeat != 0, "ok", "failed"))
        .text(" user=")
        .number(scheduler.user_heartbeat as u64)
        .text(" syscall=")
        .text(choice(scheduler.user_syscalls != 0, "ok", "failed"))
        .text(" fork-wait=")
        .text(choice(scheduler.process_cycles != 0, "ok", "failed"))
        .text(" exec=")
        .text(choice(scheduler.exec_cycles != 0, "ok", "failed"))
        .text(" signal=")
        .text(choice(scheduler.signal_deliveries != 0, "ok", "failed"))
        .text(" futex=")
        .text(choice(scheduler.futex_wakeups != 0, "ok", "failed"))
        .text(" policy=")
        .text(choice(scheduler.policy_updates >= 3, "ok", "failed"))
        .text(" ipc-user=")
        .text(choice(scheduler.ipc_deliveries >= 2, "ok", "failed"))
        .text(" ipc-deny=")
        .text(choice(scheduler.ipc_rejections != 0, "ok", "failed"))
        .text(" ptable=")
        .text(choice(scheduler.task_table_entries == scheduler.threads, "ok", "failed"))
        .text(" reclaim=")
        .text(choice(scheduler.address_spaces_reclaimed >= 2, "ok", "failed")),
    )
}

/// The pieces of the line on: the disks.
#[verifier::opaque]
pub open spec fn storage_pieces(storage: StorageSummary) -> Seq<Seq<u8>> {
    lines::none().push(
        text::literal("[storage] ATA="),
    ).push(
        text::literal(word(storage.ata_present, "present", "absent")),
    ).push(
        text::literal(" AHCI="),
    ).push(
        text::literal(word(storage.ahci_present, "present", "absent")),
    ).push(
        text::literal(" NVMe="),
    ).push(
        text::literal(word(storage.nvme_present, "present", "absent")),
    ).push(
        text::literal(" async-depth="),
    ).push(
        fixed::decimal(storage.async_queue_depth as nat),
    ).push(
        text::literal(" block-io="),
    ).push(
        text::literal(word(storage.block_self_test, "ok", "failed")),
    ).push(
        text::literal(" async-io="),
    ).push(
        text::literal(word(storage.async_self_test, "ok", "failed")),
    ).push(
        text::literal(" ext2/ext4="),
    ).push(
        text::literal(word(storage.ext_self_test, "ok", "failed")),
    )
}

/// The disks.
pub fn storage_line(storage: StorageSummary) -> (line: Buffer)
    ensures
        line@ == print::line_of(storage_pieces(storage)),
{
    reveal(storage_pieces);
    print::println(
        Line::new()
        .text("[storage] ATA=")
        .text(choice(storage.ata_present, "present", "absent"))
        .text(" AHCI=")
        .text(choice(storage.ahci_present, "present", "absent"))
        .text(" NVMe=")
        .text(choice(storage.nvme_present, "present", "absent"))
        .text(" async-depth=")
        .number(storage.async_queue_depth as u64)
        .text(" block-io=")
        .text(choice(storage.block_self_test, "ok", "failed"))
        .text(" async-io=")
        .text(choice(storage.async_self_test, "ok", "failed"))
        .text(" ext2/ext4=")
        .text(choice(storage.ext_self_test, "ok", "failed")),
    )
}

/// The pieces of the line on: the root.
#[verifier::opaque]
pub open spec fn root_pieces(root: RootMountSummary) -> Seq<Seq<u8>> {
    lines::none().push(
        text::literal("[rootfs] initramfs="),
    ).push(
        text::literal(word(root.mounted, "mounted", "failed")),
    ).push(
        text::literal(" entries="),
    ).push(
        fixed::decimal(root.entries as nat),
    ).push(
        text::literal(" bytes="),
    ).push(
        fixed::decimal(root.bytes as nat),
    ).push(
        text::literal(" recovery="),
    ).push(
        text::literal(word(root.recovered, "ok", "failed")),
    )
}

/// The root.
pub fn root_line(root: RootMountSummary) -> (line: Buffer)
    ensures
        line@ == print::line_of(root_pieces(root)),
{
    reveal(root_pieces);
    print::println(
        Line::new()
        .text("[rootfs] initramfs=")
        .text(choice(root.mounted, "mounted", "failed"))
        .text(" entries=")
        .number(root.entries as u64)
        .text(" bytes=")
        .number(root.bytes as u64)
        .text(" recovery=")
        .text(choice(root.recovered, "ok", "failed")),
    )
}

/// The pieces of the line on: an exception that nothing handles.
#[verifier::opaque]
pub open spec fn exception_pieces(syndrome: u64, fault_address: u64, return_address: u64) -> Seq<Seq<u8>> {
    lines::none().push(
        text::literal("[exception] ESR=0x"),
    ).push(
        fixed::hexadecimal(syndrome as nat),
    ).push(
        text::literal(" FAR=0x"),
    ).push(
        fixed::hexadecimal(fault_address as nat),
    ).push(
        text::literal(" ELR=0x"),
    ).push(
        fixed::hexadecimal(return_address as nat),
    )
}

/// An exception that nothing handles.
pub fn exception_line(syndrome: u64, fault_address: u64, return_address: u64) -> (line: Buffer)
    ensures
        line@ == print::line_of(exception_pieces(syndrome, fault_address, return_address)),
{
    reveal(exception_pieces);
    print::println(
        Line::new()
        .text("[exception] ESR=0x")
        .hexadecimal(syndrome as u64)
        .text(" FAR=0x")
        .hexadecimal(fault_address as u64)
        .text(" ELR=0x")
        .hexadecimal(return_address as u64),
    )
}

/// The pieces of the line on: a scheduler that cannot start.
#[verifier::opaque]
pub open spec fn scheduler_failed_pieces(error: &'static str) -> Seq<Seq<u8>> {
    lines::none().push(
        text::literal("[sched] initialization failed: "),
    ).push(
        text::literal(error),
    )
}

/// A scheduler that cannot start.
pub fn scheduler_failed_line(error: &'static str) -> (line: Buffer)
    ensures
        line@ == print::line_of(scheduler_failed_pieces(error)),
{
    reveal(scheduler_failed_pieces);
    print::println(
        Line::new()
        .text("[sched] initialization failed: ")
        .text(error),
    )
}

/// The pieces of the line on: a heap that is used up.
#[verifier::opaque]
pub open spec fn oom_pieces(layout: Layout, stats: HeapStats) -> Seq<Seq<u8>> {
    lines::none().push(
        text::literal("\n[oom] kernel heap exhausted: request="),
    ).push(
        fixed::decimal(layout.size as nat),
    ).push(
        text::literal(" align="),
    ).push(
        fixed::decimal(layout.align as nat),
    ).push(
        text::literal(" used="),
    ).push(
        fixed::decimal(stats.used as nat),
    ).push(
        text::literal("/"),
    ).push(
        fixed::decimal(stats.size as nat),
    ).push(
        text::literal(" peak="),
    ).push(
        fixed::decimal(stats.peak as nat),
    ).push(
        text::literal(" events="),
    ).push(
        fixed::decimal(stats.oom_events as nat),
    )
}

/// A heap that is used up.
pub fn oom_line(layout: Layout, stats: HeapStats) -> (line: Buffer)
    ensures
        line@ == print::line_of(oom_pieces(layout, stats)),
{
    reveal(oom_pieces);
    print::println(
        Line::new()
        .text("\n[oom] kernel heap exhausted: request=")
        .number(layout.size as u64)
        .text(" align=")
        .number(layout.align as u64)
        .text(" used=")
        .number(stats.used as u64)
        .text("/")
        .number(stats.size as u64)
        .text(" peak=")
        .number(stats.peak as u64)
        .text(" events=")
        .number(stats.oom_events as u64),
    )
}

/// Says that the heap is used up, the first time that this happens.
pub fn handle_oom(in_progress: &mut bool, layout: Layout, stats: HeapStats) -> (line: Option<Buffer>)
    ensures
        *final(in_progress),
        line is Some <==> !*old(in_progress),
        line matches Some(line) ==> line@ == print::line_of(oom_pieces(layout, stats)),
{
    if *in_progress {
        return None;
    }
    *in_progress = true;
    Some(oom_line(layout, stats))
}

} // verus!
